//! Command-line facing data: override key/value pairs and the argument
//! shapes the host program fills in. Parsing one `key=value` override is
//! pure string logic and is verified here; reading the actual command line
//! is the host's business.

use vstd::prelude::*;
use crate::XdiffError;
use crate::ExtraArgs;

verus! {

/// Arguments of the program: the one action it can take.
pub struct Args {
    pub action: Action,
}

/// What the program is asked to do.
#[non_exhaustive]
pub enum Action {
    /// Diff two http responses based on a given profile.
    Run(RunArgs),
}

/// Arguments of a run: which profile, which overrides, which configuration.
pub struct RunArgs {
    /// Profile name.
    pub profile: String,
    /// Override args for the query, headers and body of the request.
    /// For query params, a key `key=value`; for headers `%key=value`;
    /// for body fields `@key=value`.
    pub extra_params: Vec<KeyVal>,
    /// Configuration file to use.
    pub config: Option<String>,
}

/// One parsed override: which bucket it targets, its key and its value.
#[derive(Debug, Clone)]
pub struct KeyVal {
    pub key_type: KeyValType,
    pub key: String,
    pub value: String,
}

/// The bucket an override targets.
#[derive(Debug, Clone, Copy, PartialEq, Eq, Structural)]
pub enum KeyValType {
    Query,
    Header,
    Body,
}

/// The whitespace characters that are trimmed off override keys and values.
pub open spec fn is_wsp(c: char) -> bool {
    c == ' ' || c == '\t' || c == '\n' || c == '\r'
}

pub open spec fn drop_leading_wsp(s: Seq<char>) -> Seq<char>
    decreases s.len(),
{
    if s.len() > 0 && is_wsp(s[0]) {
        drop_leading_wsp(s.drop_first())
    } else {
        s
    }
}

pub open spec fn drop_trailing_wsp(s: Seq<char>) -> Seq<char>
    decreases s.len(),
{
    if s.len() > 0 && is_wsp(s.last()) {
        drop_trailing_wsp(s.drop_last())
    } else {
        s
    }
}

/// The string with surrounding whitespace removed.
pub open spec fn spec_trim(s: Seq<char>) -> Seq<char> {
    drop_trailing_wsp(drop_leading_wsp(s))
}

/// Index of the first occurrence of `c` in `s`, if any.
pub open spec fn find_char(s: Seq<char>, c: char) -> Option<int>
    decreases s.len(),
{
    if s.len() == 0 {
        None
    } else if s[0] == c {
        Some(0)
    } else {
        match find_char(s.drop_first(), c) {
            Some(i) => Some(i + 1),
            None => None,
        }
    }
}

pub open spec fn is_ascii_alpha(c: char) -> bool {
    ('a' <= c && c <= 'z') || ('A' <= c && c <= 'Z')
}

/// What parsing one `key=value` override yields: the targeted bucket, the
/// key with its `%`/`@` prefix removed, and the value; or nothing when the
/// input is malformed.
pub open spec fn spec_parse_key_val(s: Seq<char>) -> Option<(KeyValType, Seq<char>, Seq<char>)> {
    match find_char(s, '=') {
        None => None,
        Some(e) => {
            let key = spec_trim(s.subrange(0, e));
            let value = spec_trim(s.subrange(e + 1, s.len() as int));
            if key.len() == 0 {
                None
            } else if key[0] == '%' {
                Some((KeyValType::Header, key.subrange(1, key.len() as int), value))
            } else if key[0] == '@' {
                Some((KeyValType::Body, key.subrange(1, key.len() as int), value))
            } else if is_ascii_alpha(key[0]) {
                Some((KeyValType::Query, key, value))
            } else {
                None
            }
        },
    }
}

proof fn lemma_drop_leading_at(s: Seq<char>, i: int)
    requires
        0 <= i <= s.len(),
        forall|k: int| 0 <= k < i ==> is_wsp(s[k]),
        i == s.len() || !is_wsp(s[i]),
    ensures
        drop_leading_wsp(s) =~= s.subrange(i, s.len() as int),
    decreases i,
{
    if i == 0 {
        assert(s.subrange(0, s.len() as int) =~= s);
    } else {
        assert(is_wsp(s[0]));
        lemma_drop_leading_at(s.drop_first(), i - 1);
        assert(s.drop_first().subrange(i - 1, s.drop_first().len() as int) =~= s.subrange(
            i,
            s.len() as int,
        ));
    }
}

proof fn lemma_drop_trailing_at(s: Seq<char>, j: int)
    requires
        0 <= j <= s.len(),
        forall|k: int| j <= k < s.len() ==> is_wsp(s[k]),
        j == 0 || !is_wsp(s[j - 1]),
    ensures
        drop_trailing_wsp(s) =~= s.subrange(0, j),
    decreases s.len() - j,
{
    if j == s.len() {
        if s.len() > 0 && is_wsp(s.last()) {
            assert(!is_wsp(s[j - 1]));
            assert(false);
        }
        assert(s.subrange(0, s.len() as int) =~= s);
    } else {
        assert(is_wsp(s.last()));
        lemma_drop_trailing_at(s.drop_last(), j);
        assert(s.drop_last().subrange(0, j) =~= s.subrange(0, j));
    }
}

pub proof fn lemma_find_char_none(s: Seq<char>, c: char)
    requires
        forall|k: int| 0 <= k < s.len() ==> s[k] != c,
    ensures
        find_char(s, c) is None,
    decreases s.len(),
{
    if s.len() > 0 {
        lemma_find_char_none(s.drop_first(), c);
    }
}

pub proof fn lemma_find_char_at(s: Seq<char>, c: char, i: int)
    requires
        0 <= i < s.len(),
        s[i] == c,
        forall|k: int| 0 <= k < i ==> s[k] != c,
    ensures
        find_char(s, c) == Some(i),
    decreases i,
{
    if i > 0 {
        lemma_find_char_at(s.drop_first(), c, i - 1);
    }
}

/// The input with surrounding whitespace removed.
pub fn trim_str(s: &str) -> (r: String)
    ensures
        r@ == spec_trim(s@),
{
    let n: usize = s.unicode_len();
    let mut lo: usize = 0;
    while lo < n && is_wsp_exec(s.get_char(lo))
        invariant
            0 <= lo <= n,
            n == s@.len(),
            forall|k: int| 0 <= k < lo ==> is_wsp(s@[k]),
        decreases n - lo,
    {
        lo = lo + 1;
    }
    proof {
        lemma_drop_leading_at(s@, lo as int);
    }
    if lo == n {
        proof {
            lemma_drop_trailing_at(s@.subrange(lo as int, n as int), 0);
        }
        return String::new();
    }
    let mut hi: usize = n;
    while hi > lo && is_wsp_exec(s.get_char(hi - 1))
        invariant
            lo <= hi <= n,
            n == s@.len(),
            lo < n,
            !is_wsp(s@[lo as int]),
            forall|k: int| hi <= k < n ==> is_wsp(s@[k]),
        decreases hi,
    {
        hi = hi - 1;
    }
    proof {
        let t = s@.subrange(lo as int, n as int);
        lemma_drop_trailing_at(t, hi - lo);
        assert(t.subrange(0, hi - lo) =~= s@.subrange(lo as int, hi as int));
    }
    s.substring_char(lo, hi).to_owned()
}

/// Whether `c` counts as trimmable whitespace.
pub fn is_wsp_exec(c: char) -> (r: bool)
    ensures
        r == is_wsp(c),
{
    c == ' ' || c == '\t' || c == '\n' || c == '\r'
}

/// Parse one `key=value` override into the bucket it targets, its key and
/// its value. Key and value are trimmed of surrounding whitespace; a key
/// starting with `%` targets a header, with `@` a body field, and with an
/// ASCII letter a query parameter; anything else is refused.
pub fn parse_key_val(s: &str) -> (r: Result<KeyVal, XdiffError>)
    ensures
        match spec_parse_key_val(s@) {
            Some(t) => r matches Ok(kv) && kv.key_type == t.0 && kv.key@ == t.1 && kv.value@
                == t.2,
            None => r matches Err(e) && e == XdiffError::OverrideParse,
        },
{
    let n: usize = s.unicode_len();
    let mut e: usize = 0;
    while e < n && s.get_char(e) != '='
        invariant
            0 <= e <= n,
            n == s@.len(),
            forall|k: int| 0 <= k < e ==> s@[k] != '=',
        decreases n - e,
    {
        e = e + 1;
    }
    if e == n {
        proof {
            lemma_find_char_none(s@, '=');
        }
        return Err(XdiffError::OverrideParse);
    }
    proof {
        lemma_find_char_at(s@, '=', e as int);
    }
    let key = trim_str(s.substring_char(0, e));
    let value = trim_str(s.substring_char(e + 1, n));
    let klen: usize = key.as_str().unicode_len();
    if klen == 0 {
        return Err(XdiffError::OverrideParse);
    }
    let c0 = key.as_str().get_char(0);
    if c0 == '%' {
        let rest = key.as_str().substring_char(1, klen).to_owned();
        Ok(KeyVal { key_type: KeyValType::Header, key: rest, value })
    } else if c0 == '@' {
        let rest = key.as_str().substring_char(1, klen).to_owned();
        Ok(KeyVal { key_type: KeyValType::Body, key: rest, value })
    } else if ('a' <= c0 && c0 <= 'z') || ('A' <= c0 && c0 <= 'Z') {
        Ok(KeyVal { key_type: KeyValType::Query, key, value })
    } else {
        Err(XdiffError::OverrideParse)
    }
}

/// The key/value pairs of `args` that target bucket `t`, in order.
pub open spec fn kv_project(args: Seq<KeyVal>, t: KeyValType) -> Seq<(Seq<char>, Seq<char>)>
    decreases args.len(),
{
    if args.len() == 0 {
        Seq::empty()
    } else {
        let rest = kv_project(args.drop_last(), t);
        let last = args.last();
        if last.key_type == t {
            rest.push((last.key@, last.value@))
        } else {
            rest
        }
    }
}

/// The views of a vector of owned string pairs.
pub open spec fn pairs_view(v: Seq<(String, String)>) -> Seq<(Seq<char>, Seq<char>)> {
    v.map_values(|p: (String, String)| (p.0@, p.1@))
}

impl ExtraArgs {
    /// Sort a list of parsed overrides into the three buckets they target,
    /// keeping the order in which they were supplied.
    pub fn from_key_vals(args: Vec<KeyVal>) -> (r: ExtraArgs)
        ensures
            pairs_view(r.headers@) == kv_project(args@, KeyValType::Header),
            pairs_view(r.query@) == kv_project(args@, KeyValType::Query),
            pairs_view(r.body@) == kv_project(args@, KeyValType::Body),
    {
        let mut headers: Vec<(String, String)> = Vec::new();
        let mut query: Vec<(String, String)> = Vec::new();
        let mut body: Vec<(String, String)> = Vec::new();
        let mut i: usize = 0;
        while i < args.len()
            invariant
                0 <= i <= args@.len(),
                pairs_view(headers@) =~= kv_project(args@.subrange(0, i as int), KeyValType::Header),
                pairs_view(query@) =~= kv_project(args@.subrange(0, i as int), KeyValType::Query),
                pairs_view(body@) =~= kv_project(args@.subrange(0, i as int), KeyValType::Body),
            decreases args@.len() - i,
        {
            let arg = &args[i];
            proof {
                assert(args@.subrange(0, i + 1).drop_last() =~= args@.subrange(0, i as int));
                assert(args@.subrange(0, i + 1).last() == args@[i as int]);
            }
            match arg.key_type {
                KeyValType::Header => headers.push((arg.key.clone(), arg.value.clone())),
                KeyValType::Query => query.push((arg.key.clone(), arg.value.clone())),
                KeyValType::Body => body.push((arg.key.clone(), arg.value.clone())),
            }
            i = i + 1;
        }
        proof {
            assert(args@.subrange(0, args@.len() as int) =~= args@);
        }
        ExtraArgs { headers, query, body }
    }
}

} // verus!
