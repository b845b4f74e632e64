//! Filtering a received response down to comparable text: a status line,
//! the headers that are not skipped, a blank line, and the body — with a
//! JSON body parsed, its skipped top-level fields removed, and printed
//! pretty. Both sides of a comparison run through this with the same skip
//! lists, so the comparison is symmetric.

use vstd::prelude::*;
use crate::XdiffError;
use crate::cli::lemma_find_char_at;
use crate::cli::lemma_find_char_none;
use crate::cli::pairs_view;
use crate::headers::lower_seq;
use crate::headers::str_eq;
use crate::headers::str_eq_ignore_case;
use crate::json::JsonRep;
use crate::json::jmodel;
use crate::json::json_from_str;
use crate::json::json_is_object;
use crate::json::json_remove_key;
use crate::json::json_to_string_pretty;
use crate::json::parsed_json;
use crate::json::pretty_of;
use crate::req::ct_prefix;

verus! {

/// Which parts of a response stay out of the comparison: header names
/// (matched case-insensitively) and top-level JSON body fields.
pub struct ResponseProfile {
    pub skip_headers: Vec<String>,
    pub skip_body: Vec<String>,
}

impl Default for ResponseProfile {
    /// Skip nothing.
    fn default() -> (r: ResponseProfile)
        ensures
            r.skip_headers@.len() == 0,
            r.skip_body@.len() == 0,
    {
        ResponseProfile { skip_headers: Vec::new(), skip_body: Vec::new() }
    }
}

/// Whether a response profile skips nothing at all.
pub fn is_default(v: &ResponseProfile) -> (r: bool)
    ensures
        r == (v.skip_headers@.len() == 0 && v.skip_body@.len() == 0),
{
    v.skip_headers.is_empty() && v.skip_body.is_empty()
}

/// A received response, reduced to the plain values the filter reads:
/// protocol version, status line, headers in the order received, and the
/// body text.
pub struct ResponseExt {
    pub version: String,
    pub status: String,
    pub headers: Vec<(String, String)>,
    pub body: String,
}

/// The views of a vector of owned strings.
pub open spec fn strs_view(v: Seq<String>) -> Seq<Seq<char>> {
    v.map_values(|s: String| s@)
}

/// Whether a header name is on the skip list, compared case-insensitively.
pub open spec fn in_skip(name: Seq<char>, skip: Seq<Seq<char>>) -> bool {
    exists|i: int| 0 <= i < skip.len() && lower_seq(skip[i]) == lower_seq(name)
}

/// The headers that survive the skip list, in their received order.
pub open spec fn kept_headers(
    h: Seq<(Seq<char>, Seq<char>)>,
    skip: Seq<Seq<char>>,
) -> Seq<(Seq<char>, Seq<char>)>
    decreases h.len(),
{
    if h.len() == 0 {
        Seq::empty()
    } else {
        let rest = kept_headers(h.drop_last(), skip);
        if in_skip(h.last().0, skip) {
            rest
        } else {
            rest.push(h.last())
        }
    }
}

/// One rendered header line: `Name: value`, newline-terminated.
pub open spec fn header_line(p: (Seq<char>, Seq<char>)) -> Seq<char> {
    p.0 + ": "@ + p.1 + "\n"@
}

/// The rendered lines of a header list.
pub open spec fn header_lines(h: Seq<(Seq<char>, Seq<char>)>) -> Seq<char>
    decreases h.len(),
{
    if h.len() == 0 {
        Seq::empty()
    } else {
        header_lines(h.drop_last()) + header_line(h.last())
    }
}

/// Index of the first header named `content-type`, case-insensitively.
pub open spec fn find_header_ci(s: Seq<(Seq<char>, Seq<char>)>, target: Seq<char>) -> Option<int>
    decreases s.len(),
{
    if s.len() == 0 {
        None
    } else if lower_seq(s[0].0) == target {
        Some(0)
    } else {
        match find_header_ci(s.drop_first(), target) {
            Some(i) => Some(i + 1),
            None => None,
        }
    }
}

/// The effective content type of a received response: the value of its
/// first `content-type` header, up to the first `;`.
pub open spec fn resp_effective_ct(s: Seq<(Seq<char>, Seq<char>)>) -> Option<Seq<char>> {
    match find_header_ci(s, "content-type"@) {
        None => None,
        Some(i) => Some(ct_prefix(s[i].1)),
    }
}

/// A JSON object map with the skipped keys removed; absent keys change
/// nothing.
pub open spec fn remove_keys(
    m: Map<Seq<char>, JsonRep>,
    skip: Seq<Seq<char>>,
) -> Map<Seq<char>, JsonRep>
    decreases skip.len(),
{
    if skip.len() == 0 {
        m
    } else {
        remove_keys(m, skip.drop_last()).remove(skip.last())
    }
}

/// A JSON value with its skipped top-level fields removed: only an object
/// is filtered, any other shape passes through.
pub open spec fn strip_body(j: JsonRep, skip: Seq<Seq<char>>) -> JsonRep {
    match j {
        JsonRep::Obj(m) => JsonRep::Obj(remove_keys(m, skip)),
        _ => j,
    }
}

/// What filtering a JSON body text yields: the parsed value (failing on
/// invalid JSON) with its skipped top-level fields removed, printed
/// pretty.
pub open spec fn spec_filter_json(
    text: Seq<char>,
    skip: Seq<Seq<char>>,
) -> Result<Seq<char>, XdiffError> {
    match parsed_json(text) {
        None => Err(XdiffError::BodyDecode),
        Some(j) => Ok(pretty_of(strip_body(j, skip))),
    }
}

/// What the body contributes to the filtered text: JSON bodies are parsed
/// (failing on invalid JSON), filtered and pretty-printed; anything else
/// passes through verbatim. A newline terminates either.
pub open spec fn spec_filter_body(
    ct: Option<Seq<char>>,
    body: Seq<char>,
    skip: Seq<Seq<char>>,
) -> Result<Seq<char>, XdiffError> {
    if ct == Some("application/json"@) {
        match spec_filter_json(body, skip) {
            Err(e) => Err(e),
            Ok(t) => Ok(t + "\n"@),
        }
    } else {
        Ok(body + "\n"@)
    }
}

/// Filter a JSON body text: parse it (`BodyDecode` when the text is not
/// valid JSON), remove the skipped top-level fields when it is an object
/// (any other shape passes through unfiltered), and print it pretty.
#[verifier::loop_isolation(false)]
pub fn filter_json(text: &str, skip: &Vec<String>) -> (r: Result<String, XdiffError>)
    ensures
        match spec_filter_json(text@, strs_view(skip@)) {
            Err(e) => r matches Err(e2) && e2 == e,
            Ok(t) => r matches Ok(s) && s@ == t,
        },
{
    let ghost skb = strs_view(skip@);
    let mut parsed = match json_from_str(text) {
        Ok(v) => v,
        Err(_) => {
            return Err(XdiffError::BodyDecode);
        },
    };
    if json_is_object(&parsed) {
        let ghost m0 = jmodel(parsed).obj();
        let nk = skip.len();
        let mut k: usize = 0;
        while k < nk
            invariant
                0 <= k <= nk,
                nk == skip@.len(),
                jmodel(parsed) == JsonRep::Obj(remove_keys(m0, skb.subrange(0, k as int))),
            decreases nk - k,
        {
            json_remove_key(&mut parsed, skip[k].as_str());
            proof {
                assert(skb.subrange(0, k + 1).drop_last() =~= skb.subrange(0, k as int));
                assert(skb.subrange(0, k + 1).last() == skb[k as int]);
            }
            k = k + 1;
        }
        proof {
            assert(skb.subrange(0, nk as int) =~= skb);
        }
    }
    Ok(json_to_string_pretty(&parsed))
}

/// The whole filtered text: status line, surviving headers, a blank
/// line, then the body part.
pub open spec fn spec_filter_text(
    version: Seq<char>,
    status: Seq<char>,
    headers: Seq<(Seq<char>, Seq<char>)>,
    body: Seq<char>,
    skip_headers: Seq<Seq<char>>,
    skip_body: Seq<Seq<char>>,
) -> Result<Seq<char>, XdiffError> {
    match spec_filter_body(resp_effective_ct(headers), body, skip_body) {
        Err(e) => Err(e),
        Ok(btext) => Ok(
            version + " "@ + status + "\n"@ + header_lines(kept_headers(headers, skip_headers))
                + "\n"@ + btext,
        ),
    }
}

/// Whether `name` is on the skip list, compared case-insensitively.
#[verifier::loop_isolation(false)]
fn in_skip_exec(name: &str, skip: &Vec<String>) -> (r: bool)
    ensures
        r == in_skip(name@, strs_view(skip@)),
{
    let n = skip.len();
    let mut i: usize = 0;
    while i < n
        invariant
            0 <= i <= n,
            n == skip@.len(),
            forall|k: int|
                0 <= k < i ==> lower_seq(strs_view(skip@)[k]) != lower_seq(name@),
        decreases n - i,
    {
        if str_eq_ignore_case(skip[i].as_str(), name) {
            proof {
                assert(strs_view(skip@)[i as int] == skip@[i as int]@);
                assert(in_skip(name@, strs_view(skip@)));
            }
            return true;
        }
        proof {
            assert(strs_view(skip@)[i as int] == skip@[i as int]@);
        }
        i = i + 1;
    }
    proof {
        assert(!in_skip(name@, strs_view(skip@)));
    }
    false
}

impl ResponseExt {
    /// Reduce this response to comparable text under the given profile:
    /// the status line, every header not on the skip list, a blank line,
    /// and the body — a JSON body is parsed (`BodyDecode` when the text
    /// is not JSON), its skipped top-level fields removed, and printed
    /// pretty; any other body passes through verbatim.
    #[verifier::loop_isolation(false)]
    pub fn filter_text(self, profile: &ResponseProfile) -> (r: Result<String, XdiffError>)
        ensures
            match spec_filter_text(
                self.version@,
                self.status@,
                pairs_view(self.headers@),
                self.body@,
                strs_view(profile.skip_headers@),
                strs_view(profile.skip_body@),
            ) {
                Err(e) => r matches Err(e2) && e2 == e,
                Ok(text) => r matches Ok(t) && t@ == text,
            },
    {
        let ghost hview = pairs_view(self.headers@);
        let ghost skh = strs_view(profile.skip_headers@);
        let ghost skb = strs_view(profile.skip_body@);
        let mut out = String::new();
        out.append(self.version.as_str());
        out.append(" ");
        out.append(self.status.as_str());
        out.append("\n");
        let ghost head = self.version@ + " "@ + self.status@ + "\n"@;
        proof {
            assert(out@ =~= head);
        }
        let n = self.headers.len();
        let mut i: usize = 0;
        while i < n
            invariant
                0 <= i <= n,
                n == self.headers@.len(),
                out@ == head + header_lines(kept_headers(hview.subrange(0, i as int), skh)),
            decreases n - i,
        {
            proof {
                assert(hview.subrange(0, i + 1).drop_last() =~= hview.subrange(0, i as int));
                assert(hview.subrange(0, i + 1).last() == hview[i as int]);
            }
            proof {
                assert(hview[i as int] == (self.headers@[i as int].0@, self.headers@[
                    i as int].1@));
            }
            if !in_skip_exec(self.headers[i].0.as_str(), &profile.skip_headers) {
                out.append(self.headers[i].0.as_str());
                out.append(": ");
                out.append(self.headers[i].1.as_str());
                out.append("\n");
                proof {
                    let kh = kept_headers(hview.subrange(0, i as int), skh);
                    assert(kept_headers(hview.subrange(0, i + 1), skh) == kh.push(
                        hview[i as int]));
                    assert(kh.push(hview[i as int]).drop_last() =~= kh);
                    assert(kh.push(hview[i as int]).last() == hview[i as int]);
                    assert(out@ =~= head + header_lines(
                        kept_headers(hview.subrange(0, i + 1), skh),
                    ));
                }
            } else {
                proof {
                    assert(kept_headers(hview.subrange(0, i + 1), skh) == kept_headers(
                        hview.subrange(0, i as int),
                        skh,
                    ));
                }
            }
            i = i + 1;
        }
        proof {
            assert(hview.subrange(0, n as int) =~= hview);
        }
        out.append("\n");
        let ct = resp_content_type(&self.headers);
        let is_json = match &ct {
            Some(c) => str_eq(c.as_str(), "application/json"),
            None => false,
        };
        if is_json {
            let pretty = match filter_json(self.body.as_str(), &profile.skip_body) {
                Ok(t) => t,
                Err(e) => {
                    return Err(e);
                },
            };
            out.append(pretty.as_str());
            out.append("\n");
            Ok(out)
        } else {
            out.append(self.body.as_str());
            out.append("\n");
            Ok(out)
        }
    }
}

/// The effective content type of a raw header list: the first header
/// named `content-type` (case-insensitively), its value up to the first
/// `;`.
#[verifier::loop_isolation(false)]
pub fn resp_content_type(headers: &Vec<(String, String)>) -> (r: Option<String>)
    ensures
        match resp_effective_ct(pairs_view(headers@)) {
            None => r is None,
            Some(c) => r matches Some(s) && s@ == c,
        },
{
    let ghost hview = pairs_view(headers@);
    let n = headers.len();
    let mut i: usize = 0;
    while i < n
        invariant
            0 <= i <= n,
            n == headers@.len(),
            forall|k: int| 0 <= k < i ==> lower_seq(hview[k].0) != "content-type"@,
        decreases n - i,
    {
        proof {
            lemma_lower_ct();
            assert(hview[i as int] == (headers@[i as int].0@, headers@[i as int].1@));
        }
        if str_eq_ignore_case(headers[i].0.as_str(), "content-type") {
            proof {
                lemma_lower_ct();
                lemma_find_header_ci_at(hview, "content-type"@, i as int);
            }
            let s = headers[i].1.as_str();
            let m: usize = s.unicode_len();
            let mut j: usize = 0;
            while j < m && s.get_char(j) != ';'
                invariant
                    0 <= j <= m,
                    m == s@.len(),
                    forall|k: int| 0 <= k < j ==> s@[k] != ';',
                decreases m - j,
            {
                j = j + 1;
            }
            if j == m {
                proof {
                    lemma_find_char_none(s@, ';');
                }
                return Some(headers[i].1.clone());
            } else {
                proof {
                    lemma_find_char_at(s@, ';', j as int);
                }
                return Some(s.substring_char(0, j).to_owned());
            }
        }
        i = i + 1;
    }
    proof {
        lemma_find_header_ci_none(hview, "content-type"@);
    }
    None
}

/// The literal `content-type` is its own lowercase form.
proof fn lemma_lower_ct()
    ensures
        lower_seq("content-type"@) == "content-type"@,
{
    reveal_strlit("content-type");
    assert(lower_seq("content-type"@) =~= "content-type"@);
}

proof fn lemma_find_header_ci_none(s: Seq<(Seq<char>, Seq<char>)>, target: Seq<char>)
    requires
        forall|k: int| 0 <= k < s.len() ==> lower_seq(s[k].0) != target,
    ensures
        find_header_ci(s, target) is None,
    decreases s.len(),
{
    if s.len() > 0 {
        lemma_find_header_ci_none(s.drop_first(), target);
    }
}

proof fn lemma_find_header_ci_at(s: Seq<(Seq<char>, Seq<char>)>, target: Seq<char>, i: int)
    requires
        0 <= i < s.len(),
        lower_seq(s[i].0) == target,
        forall|k: int| 0 <= k < i ==> lower_seq(s[k].0) != target,
    ensures
        find_header_ci(s, target) == Some(i),
    decreases i,
{
    if i > 0 {
        lemma_find_header_ci_at(s.drop_first(), target, i - 1);
    }
}

/// Removing the same keys twice removes no more than removing them once:
/// the body filter is idempotent.
pub proof fn lemma_skip_body_idempotent(m: Map<Seq<char>, JsonRep>, skip: Seq<Seq<char>>)
    ensures
        remove_keys(remove_keys(m, skip), skip) == remove_keys(m, skip),
    decreases skip.len(),
{
    if skip.len() > 0 {
        let k = skip.last();
        let s0 = skip.drop_last();
        lemma_remove_keys_remove(remove_keys(m, skip), s0, k);
        lemma_skip_body_idempotent(m, s0);
        lemma_remove_keys_remove(remove_keys(m, s0), s0, k);
        assert(remove_keys(remove_keys(m, s0).remove(k), s0).remove(k) =~= remove_keys(
            remove_keys(m, s0),
            s0,
        ).remove(k).remove(k));
        assert(remove_keys(remove_keys(m, s0), s0).remove(k).remove(k) =~= remove_keys(
            remove_keys(m, s0),
            s0,
        ).remove(k));
    }
}

/// Removing a key commutes with removing a list of keys.
proof fn lemma_remove_keys_remove(m: Map<Seq<char>, JsonRep>, skip: Seq<Seq<char>>, k: Seq<char>)
    ensures
        remove_keys(m.remove(k), skip) == remove_keys(m, skip).remove(k),
    decreases skip.len(),
{
    if skip.len() == 0 {
    } else {
        lemma_remove_keys_remove(m, skip.drop_last(), k);
        assert(remove_keys(m.remove(k), skip) =~= remove_keys(m, skip).remove(k));
    }
}

/// Filtering an already filtered header list keeps it unchanged: the
/// header filter is idempotent.
pub proof fn lemma_skip_headers_idempotent(
    h: Seq<(Seq<char>, Seq<char>)>,
    skip: Seq<Seq<char>>,
)
    ensures
        kept_headers(kept_headers(h, skip), skip) == kept_headers(h, skip),
    decreases h.len(),
{
    if h.len() > 0 {
        lemma_skip_headers_idempotent(h.drop_last(), skip);
        if in_skip(h.last().0, skip) {
        } else {
            let kh = kept_headers(h.drop_last(), skip);
            assert(kept_headers(h, skip) == kh.push(h.last()));
            assert(kh.push(h.last()).drop_last() =~= kh);
        }
    }
}

} // verus!
