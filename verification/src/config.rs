//! The configuration a comparison runs against: named profiles, each a
//! pair of request descriptions with one shared response filter. Loading
//! the YAML text is the host's business; this module holds the loaded
//! shape, its validation, and the comparison of a received response pair.

use vstd::prelude::*;
use crate::XdiffError;
use crate::cli::pairs_view;
use crate::headers::str_eq;
use crate::req::RequestProfile;
use crate::req::base_ok;
use crate::response::ResponseExt;
use crate::response::ResponseProfile;
use crate::response::spec_filter_text;
use crate::response::strs_view;
use crate::utils::diff_text;
use crate::utils::spec_diff_text;

verus! {

/// One named comparison: two request descriptions and the response
/// filter applied to both sides.
pub struct DiffProfile {
    pub req1: RequestProfile,
    pub req2: RequestProfile,
    pub res: ResponseProfile,
}

/// The whole configuration: profiles by name.
pub struct DiffConfig {
    pub profiles: Vec<(String, DiffProfile)>,
}

/// Whether a profile's two requests are well-formed: where given, their
/// query and body are JSON objects.
pub open spec fn profile_ok(p: &DiffProfile) -> bool {
    base_ok(p.req1.params) && base_ok(p.req1.body) && base_ok(p.req2.params) && base_ok(
        p.req2.body,
    )
}

/// Index of the first profile of that name, if any.
pub open spec fn find_profile(s: Seq<(String, DiffProfile)>, name: Seq<char>) -> Option<int>
    decreases s.len(),
{
    if s.len() == 0 {
        None
    } else if s[0].0@ == name {
        Some(0)
    } else {
        match find_profile(s.drop_first(), name) {
            Some(i) => Some(i + 1),
            None => None,
        }
    }
}

proof fn lemma_find_profile_none(s: Seq<(String, DiffProfile)>, name: Seq<char>)
    requires
        forall|k: int| 0 <= k < s.len() ==> s[k].0@ != name,
    ensures
        find_profile(s, name) is None,
    decreases s.len(),
{
    if s.len() > 0 {
        lemma_find_profile_none(s.drop_first(), name);
    }
}

proof fn lemma_find_profile_at(s: Seq<(String, DiffProfile)>, name: Seq<char>, i: int)
    requires
        0 <= i < s.len(),
        s[i].0@ == name,
        forall|k: int| 0 <= k < i ==> s[k].0@ != name,
    ensures
        find_profile(s, name) == Some(i),
    decreases i,
{
    if i > 0 {
        lemma_find_profile_at(s.drop_first(), name, i - 1);
    }
}

impl DiffProfile {
    /// A profile is usable when both of its requests are.
    pub fn validate(&self) -> (r: Result<(), XdiffError>)
        ensures
            r is Ok <==> profile_ok(self),
            r is Err ==> r == Err::<(), XdiffError>(XdiffError::ConfigValidation),
    {
        self.req1.validate()?;
        self.req2.validate()?;
        Ok(())
    }

    /// Compare a received response pair: both sides are filtered with
    /// this profile's one response filter — so the comparison is
    /// symmetric — and the two texts are rendered as a diff report.
    pub fn diff_responses(&self, res1: ResponseExt, res2: ResponseExt) -> (r: Result<
        String,
        XdiffError,
    >)
        ensures
            ({
                let f1 = spec_filter_text(
                    res1.version@,
                    res1.status@,
                    pairs_view(res1.headers@),
                    res1.body@,
                    strs_view(self.res.skip_headers@),
                    strs_view(self.res.skip_body@),
                );
                let f2 = spec_filter_text(
                    res2.version@,
                    res2.status@,
                    pairs_view(res2.headers@),
                    res2.body@,
                    strs_view(self.res.skip_headers@),
                    strs_view(self.res.skip_body@),
                );
                match f1 {
                    Err(e) => r matches Err(e2) && e2 == e,
                    Ok(t1) => match f2 {
                        Err(e) => r matches Err(e2) && e2 == e,
                        Ok(t2) => r matches Ok(out) && out@ == spec_diff_text(t1, t2),
                    },
                }
            }),
    {
        let text1 = res1.filter_text(&self.res)?;
        let text2 = res2.filter_text(&self.res)?;
        Ok(diff_text(text1.as_str(), text2.as_str()))
    }
}

impl DiffConfig {
    /// The profile of that name, when the configuration has one.
    pub fn get_profile<'a>(&'a self, name: &str) -> (r: Option<&'a DiffProfile>)
        ensures
            match find_profile(self.profiles@, name@) {
                Some(i) => r matches Some(p) && *p == self.profiles@[i].1,
                None => r is None,
            },
    {
        let n = self.profiles.len();
        let mut i: usize = 0;
        while i < n
            invariant
                0 <= i <= n,
                n == self.profiles@.len(),
                forall|k: int| 0 <= k < i ==> self.profiles@[k].0@ != name@,
            decreases n - i,
        {
            if str_eq(self.profiles[i].0.as_str(), name) {
                proof {
                    lemma_find_profile_at(self.profiles@, name@, i as int);
                }
                return Some(&self.profiles[i].1);
            }
            i = i + 1;
        }
        proof {
            lemma_find_profile_none(self.profiles@, name@);
        }
        None
    }

    /// A configuration is usable when every profile in it is.
    #[verifier::loop_isolation(false)]
    pub fn validate(&self) -> (r: Result<(), XdiffError>)
        ensures
            r is Ok <==> (forall|k: int|
                0 <= k < self.profiles@.len() ==> profile_ok(&(#[trigger] self.profiles@[k]).1)),
            r is Err ==> r == Err::<(), XdiffError>(XdiffError::ConfigValidation),
    {
        let n = self.profiles.len();
        let mut i: usize = 0;
        while i < n
            invariant
                0 <= i <= n,
                forall|k: int| 0 <= k < i ==> profile_ok(&(#[trigger] self.profiles@[k]).1),
            decreases n - i,
        {
            match self.profiles[i].1.validate() {
                Ok(()) => {},
                Err(e) => {
                    return Err(e);
                },
            }
            i = i + 1;
        }
        Ok(())
    }
}

} // verus!
