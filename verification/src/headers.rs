//! The header mapping of a request: names are case-insensitive (stored
//! lowercase), and setting a name that is already present replaces its
//! value in place — last write wins. Validity of names and values is the
//! `http` crate's word, taken through two trusted wrappers; everything
//! else here is verified.

use vstd::prelude::*;
use crate::XdiffError;
use crate::cli::pairs_view;

verus! {

/// The characters `http` accepts in a header name.
pub open spec fn header_name_char_ok(c: char) -> bool {
    ('a' <= c && c <= 'z') || ('A' <= c && c <= 'Z') || ('0' <= c && c <= '9') || c == '!' || c
        == '#' || c == '$' || c == '%' || c == '&' || c == '\'' || c == '*' || c == '+' || c == '-'
        || c == '.' || c == '^' || c == '_' || c == '`' || c == '|' || c == '~'
}

/// The ASCII-lowercase of a character.
pub open spec fn lower_char(c: char) -> char {
    match c {
        'A' => 'a',
        'B' => 'b',
        'C' => 'c',
        'D' => 'd',
        'E' => 'e',
        'F' => 'f',
        'G' => 'g',
        'H' => 'h',
        'I' => 'i',
        'J' => 'j',
        'K' => 'k',
        'L' => 'l',
        'M' => 'm',
        'N' => 'n',
        'O' => 'o',
        'P' => 'p',
        'Q' => 'q',
        'R' => 'r',
        'S' => 's',
        'T' => 't',
        'U' => 'u',
        'V' => 'v',
        'W' => 'w',
        'X' => 'x',
        'Y' => 'y',
        'Z' => 'z',
        _ => c,
    }
}

pub open spec fn lower_seq(s: Seq<char>) -> Seq<char> {
    s.map_values(|c: char| lower_char(c))
}

/// A name `http`'s header-name parser accepts: non-empty, at most 65535
/// characters, all from its token set.
pub open spec fn valid_header_name(s: Seq<char>) -> bool {
    1 <= s.len() <= 65535 && (forall|i: int| 0 <= i < s.len() ==> header_name_char_ok(s[i]))
}

/// A name as this crate stores it: valid and already lowercase.
pub open spec fn stored_header_name(s: Seq<char>) -> bool {
    valid_header_name(s) && s == lower_seq(s)
}

/// A value `http`'s header-value parser accepts: no control characters
/// other than tab, and no delete.
pub open spec fn valid_header_value(s: Seq<char>) -> bool {
    forall|i: int| 0 <= i < s.len() ==> (s[i] == '\t' || (32 <= s[i] as u32 && s[i] as u32 != 127))
}

#[verifier::external_type_specification]
#[verifier::external_body]
pub struct ExInvalidHeaderName(http::header::InvalidHeaderName);

#[verifier::external_type_specification]
#[verifier::external_body]
pub struct ExInvalidHeaderValue(http::header::InvalidHeaderValue);

/// Relies on `http::header::HeaderName::from_str`: accepts exactly the
/// non-empty names over its token table (at most 65535 bytes long) and
/// stores them lowercased, read back with `as_str`.
#[verifier::external_body]
pub fn parse_header_name(s: &str) -> (r: Result<String, http::header::InvalidHeaderName>)
    ensures
        r matches Ok(n) ==> valid_header_name(s@) && n@ == lower_seq(s@),
        r is Err ==> !valid_header_name(s@),
{
    s.parse::<http::header::HeaderName>().map(|n| n.as_str().to_owned())
}

/// Relies on `http::header::HeaderValue::from_str`: accepts exactly the
/// strings whose bytes are visible characters, spaces or tabs (any byte
/// but a control character or delete).
#[verifier::external_body]
pub fn check_header_value(s: &str) -> (r: Result<(), http::header::InvalidHeaderValue>)
    ensures
        r is Ok <==> valid_header_value(s@),
{
    s.parse::<http::header::HeaderValue>().map(|_| ())
}

/// Character-wise equality of two strings.
pub fn str_eq(a: &str, b: &str) -> (r: bool)
    ensures
        r == (a@ == b@),
{
    let na: usize = a.unicode_len();
    let nb: usize = b.unicode_len();
    if na != nb {
        return false;
    }
    let mut i: usize = 0;
    while i < na
        invariant
            0 <= i <= na,
            na == a@.len(),
            na == b@.len(),
            forall|k: int| 0 <= k < i ==> a@[k] == b@[k],
        decreases na - i,
    {
        if a.get_char(i) != b.get_char(i) {
            return false;
        }
        i = i + 1;
    }
    proof {
        assert(a@ =~= b@);
    }
    true
}

/// The ASCII-lowercase of a character, as executable code.
pub fn to_lower_char(c: char) -> (r: char)
    ensures
        r == lower_char(c),
{
    match c {
        'A' => 'a',
        'B' => 'b',
        'C' => 'c',
        'D' => 'd',
        'E' => 'e',
        'F' => 'f',
        'G' => 'g',
        'H' => 'h',
        'I' => 'i',
        'J' => 'j',
        'K' => 'k',
        'L' => 'l',
        'M' => 'm',
        'N' => 'n',
        'O' => 'o',
        'P' => 'p',
        'Q' => 'q',
        'R' => 'r',
        'S' => 's',
        'T' => 't',
        'U' => 'u',
        'V' => 'v',
        'W' => 'w',
        'X' => 'x',
        'Y' => 'y',
        'Z' => 'z',
        _ => c,
    }
}

/// Case-insensitive equality of two strings (ASCII case folding).
pub fn str_eq_ignore_case(a: &str, b: &str) -> (r: bool)
    ensures
        r == (lower_seq(a@) == lower_seq(b@)),
{
    let na: usize = a.unicode_len();
    let nb: usize = b.unicode_len();
    if na != nb {
        proof {
            assert(lower_seq(a@).len() != lower_seq(b@).len());
        }
        return false;
    }
    let mut i: usize = 0;
    while i < na
        invariant
            0 <= i <= na,
            na == a@.len(),
            na == b@.len(),
            forall|k: int| 0 <= k < i ==> lower_char(a@[k]) == lower_char(b@[k]),
        decreases na - i,
    {
        if to_lower_char(a.get_char(i)) != to_lower_char(b.get_char(i)) {
            proof {
                assert(lower_seq(a@)[i as int] != lower_seq(b@)[i as int]);
            }
            return false;
        }
        i = i + 1;
    }
    proof {
        assert(lower_seq(a@) =~= lower_seq(b@));
    }
    true
}

/// Index of the entry named `name`, if any.
pub open spec fn find_header(s: Seq<(Seq<char>, Seq<char>)>, name: Seq<char>) -> Option<int>
    decreases s.len(),
{
    if s.len() == 0 {
        None
    } else if s[0].0 == name {
        Some(0)
    } else {
        match find_header(s.drop_first(), name) {
            Some(i) => Some(i + 1),
            None => None,
        }
    }
}

/// Setting `name` to `value`: replaces the existing entry in place, or
/// appends a new one — last write wins.
pub open spec fn spec_header_insert(
    s: Seq<(Seq<char>, Seq<char>)>,
    name: Seq<char>,
    value: Seq<char>,
) -> Seq<(Seq<char>, Seq<char>)> {
    match find_header(s, name) {
        Some(i) => s.update(i, (name, value)),
        None => s.push((name, value)),
    }
}

pub proof fn lemma_find_header_none(s: Seq<(Seq<char>, Seq<char>)>, name: Seq<char>)
    requires
        forall|k: int| 0 <= k < s.len() ==> s[k].0 != name,
    ensures
        find_header(s, name) is None,
    decreases s.len(),
{
    if s.len() > 0 {
        lemma_find_header_none(s.drop_first(), name);
    }
}

pub proof fn lemma_find_header_at(s: Seq<(Seq<char>, Seq<char>)>, name: Seq<char>, i: int)
    requires
        0 <= i < s.len(),
        s[i].0 == name,
        forall|k: int| 0 <= k < i ==> s[k].0 != name,
    ensures
        find_header(s, name) == Some(i),
    decreases i,
{
    if i > 0 {
        lemma_find_header_at(s.drop_first(), name, i - 1);
    }
}

/// The header mapping of a request. Names are stored lowercase and are
/// unique; values hold no characters illegal in a header.
pub struct Headers {
    entries: Vec<(String, String)>,
}

impl View for Headers {
    type V = Seq<(Seq<char>, Seq<char>)>;

    closed spec fn view(&self) -> Seq<(Seq<char>, Seq<char>)> {
        pairs_view(self.entries@)
    }
}

impl Headers {
    /// Every stored name is valid and lowercase, every value legal, and
    /// no name occurs twice.
    pub open spec fn wf(&self) -> bool {
        &&& forall|i: int|
            0 <= i < self@.len() ==> stored_header_name(#[trigger] self@[i].0)
                && valid_header_value(self@[i].1)
        &&& forall|i: int, j: int| 0 <= i < j < self@.len() ==> self@[i].0 != self@[j].0
    }

    /// An empty header mapping.
    pub fn new() -> (r: Headers)
        ensures
            r@ =~= Seq::<(Seq<char>, Seq<char>)>::empty(),
            r.wf(),
    {
        Headers { entries: Vec::new() }
    }

    /// How many headers are set.
    pub fn len(&self) -> (r: usize)
        ensures
            r == self@.len(),
    {
        self.entries.len()
    }

    /// The name and value of the `i`-th header, in insertion order.
    pub fn entry(&self, i: usize) -> (r: &(String, String))
        requires
            i < self@.len(),
        ensures
            r.0@ == self@[i as int].0,
            r.1@ == self@[i as int].1,
    {
        &self.entries[i]
    }

    /// The value stored under `name`, which is matched exactly (pass a
    /// lowercase name).
    pub fn get<'a>(&'a self, name: &str) -> (r: Option<&'a String>)
        ensures
            match find_header(self@, name@) {
                Some(i) => r matches Some(v) && v@ == self@[i].1,
                None => r is None,
            },
    {
        let n = self.entries.len();
        let mut i: usize = 0;
        while i < n
            invariant
                0 <= i <= n,
                n == self@.len(),
                forall|k: int| 0 <= k < i ==> self@[k].0 != name@,
            decreases n - i,
        {
            if str_eq(self.entries[i].0.as_str(), name) {
                proof {
                    lemma_find_header_at(self@, name@, i as int);
                }
                return Some(&self.entries[i].1);
            }
            i = i + 1;
        }
        proof {
            lemma_find_header_none(self@, name@);
        }
        None
    }

    /// Whether a header of that (lowercase) name is set.
    pub fn contains_key(&self, name: &str) -> (r: bool)
        ensures
            r == (find_header(self@, name@) is Some),
    {
        match self.get(name) {
            Some(_) => true,
            None => false,
        }
    }

    /// Set `name` (already validated and lowercase) to `value` (already
    /// validated): replaces in place or appends.
    #[verifier::loop_isolation(false)]
    pub fn insert_checked(&mut self, name: String, value: String)
        requires
            old(self).wf(),
            stored_header_name(name@),
            valid_header_value(value@),
        ensures
            final(self)@ == spec_header_insert(old(self)@, name@, value@),
            final(self).wf(),
    {
        let ghost old_view = self@;
        let ghost gname = name@;
        let ghost gvalue = value@;
        let n = self.entries.len();
        let mut i: usize = 0;
        while i < n
            invariant
                0 <= i <= n,
                n == self@.len(),
                self@ == old_view,
                forall|k: int| 0 <= k < i ==> self@[k].0 != name@,
            decreases n - i,
        {
            if str_eq(self.entries[i].0.as_str(), name.as_str()) {
                proof {
                    lemma_find_header_at(self@, name@, i as int);
                }
                self.entries[i] = (name, value);
                proof {
                    assert(self@ =~= spec_header_insert(old_view, gname, gvalue));
                    assert forall|a: int|
                        0 <= a < self@.len() implies stored_header_name(#[trigger] self@[a].0)
                        && valid_header_value(self@[a].1) by {
                        if a != i as int {
                            assert(self@[a] == old_view[a]);
                            assert(stored_header_name(old(self)@[a].0));
                            assert(valid_header_value(old(self)@[a].1));
                            assert(self@[a].0 == old(self)@[a].0);
                            assert(self@[a].1 == old(self)@[a].1);
                            lemma_header_value_eq(old(self)@[a].1, self@[a].1);
                        } else {
                            assert(self@[a] == (gname, gvalue));
                            assert(self@[a].0 == gname);
                            assert(self@[a].1 == gvalue);
                            lemma_header_value_eq(gvalue, self@[a].1);
                        }
                        assert(stored_header_name(self@[a].0));
                        assert(valid_header_value(self@[a].1));
                    }
                }
                return ;
            }
            i = i + 1;
        }
        proof {
            lemma_find_header_none(self@, name@);
        }
        self.entries.push((name, value));
        proof {
            assert(self@ =~= spec_header_insert(old_view, gname, gvalue));
            assert forall|a: int|
                0 <= a < self@.len() implies stored_header_name(#[trigger] self@[a].0)
                && valid_header_value(self@[a].1) by {
                if a < old_view.len() {
                    assert(self@[a] == old(self)@[a]);
                }
            }
        }
    }

    /// Set a header from raw user input: the name must be a legal header
    /// name (it is matched case-insensitively and stored lowercase), the
    /// value legal in a header; last write wins.
    pub fn try_insert_raw(&mut self, name: &str, value: &str) -> (r: Result<(), XdiffError>)
        requires
            old(self).wf(),
        ensures
            final(self).wf(),
            match r {
                Ok(()) => valid_header_name(name@) && valid_header_value(value@) && final(self)@
                    == spec_header_insert(old(self)@, lower_seq(name@), value@),
                Err(e) => final(self)@ == old(self)@ && (e == XdiffError::InvalidHeaderName
                    && !valid_header_name(name@) || e == XdiffError::InvalidHeaderValue
                    && valid_header_name(name@) && !valid_header_value(value@)),
            },
    {
        let lowered = match parse_header_name(name) {
            Ok(n) => n,
            Err(_) => {
                return Err(XdiffError::InvalidHeaderName);
            },
        };
        match check_header_value(value) {
            Ok(()) => {},
            Err(_) => {
                return Err(XdiffError::InvalidHeaderValue);
            },
        }
        proof {
            lemma_lower_seq_stored(name@);
        }
        self.insert_checked(lowered, value.to_owned());
        Ok(())
    }

    /// A copy of this mapping.
    #[verifier::loop_isolation(false)]
    pub fn clone_headers(&self) -> (r: Headers)
        ensures
            r@ == self@,
            self.wf() ==> r.wf(),
    {
        let mut entries: Vec<(String, String)> = Vec::new();
        let n = self.entries.len();
        let mut i: usize = 0;
        while i < n
            invariant
                0 <= i <= n,
                n == self@.len(),
                pairs_view(entries@) =~= self@.subrange(0, i as int),
            decreases n - i,
        {
            let ghost prev = entries@;
            let c0 = self.entries[i].0.clone();
            let c1 = self.entries[i].1.clone();
            proof {
                assert(c0@ == self@[i as int].0);
                assert(c1@ == self@[i as int].1);
            }
            let ghost g0 = c0@;
            let ghost g1 = c1@;
            entries.push((c0, c1));
            proof {
                assert(entries@.last().0@ == g0 && entries@.last().1@ == g1);
                assert(entries@.drop_last() == prev);
                assert(pairs_view(entries@) =~= self@.subrange(0, i + 1));
            }
            i = i + 1;
        }
        proof {
            assert(self@.subrange(0, n as int) =~= self@);
        }
        let r = Headers { entries };
        proof {
            assert(r@ =~= self@);
        }
        r
    }
}

/// A header value equal to a valid one is valid.
proof fn lemma_header_value_eq(x: Seq<char>, y: Seq<char>)
    requires
        x == y,
        valid_header_value(x),
    ensures
        valid_header_value(y),
{
}

/// Lowercasing a valid header name yields a valid, lowercase name.
proof fn lemma_lower_seq_stored(s: Seq<char>)
    requires
        valid_header_name(s),
    ensures
        stored_header_name(lower_seq(s)),
{
    let l = lower_seq(s);
    assert forall|i: int| 0 <= i < l.len() implies header_name_char_ok(#[trigger] l[i]) by {
        assert(header_name_char_ok(s[i]));
    }
    assert(l =~= lower_seq(l));
}

} // verus!

