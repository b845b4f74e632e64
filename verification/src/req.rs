//! A request description and the merge/encode step: overrides are folded
//! into a copy of the profile, a default content type is injected when
//! none is set, and the body is serialized as the effective content type
//! asks — JSON, URL-encoded form pairs, or refused.

use vstd::prelude::*;
use crate::ExtraArgs;
use crate::XdiffError;
use crate::cli::find_char;
use crate::cli::lemma_find_char_at;
use crate::cli::lemma_find_char_none;
use crate::cli::pairs_view;
use crate::headers::Headers;
use crate::headers::find_header;
use crate::headers::lower_seq;
use crate::headers::spec_header_insert;
use crate::headers::stored_header_name;
use crate::headers::valid_header_name;
use crate::headers::valid_header_value;
use crate::json::JsonRep;
use crate::json::compact_of;
use crate::json::form_of;
use crate::json::jmodel;
use crate::json::form_encode;
use crate::json::json_clone;
use crate::json::json_is_object;
use crate::json::json_new_object;
use crate::json::json_set_str;
use crate::json::json_to_string;

verus! {

/// One request as the configuration describes it: verb, target, optional
/// query object, headers, optional body object. Overrides are applied to
/// a copy; the profile itself is never changed.
pub struct RequestProfile {
    pub method: String,
    pub url: String,
    pub params: Option<serde_json::Value>,
    pub headers: Headers,
    pub body: Option<serde_json::Value>,
}

/// Folding header overrides into a header mapping, left to right: each
/// override is validated and set (case-insensitively, last write wins);
/// the first invalid one decides the error.
pub open spec fn merge_headers_result(
    base: Seq<(Seq<char>, Seq<char>)>,
    ov: Seq<(Seq<char>, Seq<char>)>,
) -> Result<Seq<(Seq<char>, Seq<char>)>, XdiffError>
    decreases ov.len(),
{
    if ov.len() == 0 {
        Ok(base)
    } else {
        match merge_headers_result(base, ov.drop_last()) {
            Ok(h) => {
                if !valid_header_name(ov.last().0) {
                    Err(XdiffError::InvalidHeaderName)
                } else if !valid_header_value(ov.last().1) {
                    Err(XdiffError::InvalidHeaderValue)
                } else {
                    Ok(spec_header_insert(h, lower_seq(ov.last().0), ov.last().1))
                }
            },
            Err(e) => Err(e),
        }
    }
}

/// Folding query or body overrides into a JSON object: each value is
/// stored as a JSON string under its key — last write wins.
pub open spec fn merge_obj(
    m: Map<Seq<char>, JsonRep>,
    ov: Seq<(Seq<char>, Seq<char>)>,
) -> Map<Seq<char>, JsonRep>
    decreases ov.len(),
{
    if ov.len() == 0 {
        m
    } else {
        merge_obj(m, ov.drop_last()).insert(ov.last().0, JsonRep::Str(ov.last().1))
    }
}

/// The header mapping with `application/json` injected as content type
/// where none is set.
pub open spec fn with_default_ct(h: Seq<(Seq<char>, Seq<char>)>) -> Seq<(Seq<char>, Seq<char>)> {
    if find_header(h, "content-type"@) is Some {
        h
    } else {
        h.push(("content-type"@, "application/json"@))
    }
}

/// A content-type value with its parameters after `;` dropped.
pub open spec fn ct_prefix(v: Seq<char>) -> Seq<char> {
    match find_char(v, ';') {
        None => v,
        Some(j) => v.subrange(0, j),
    }
}

/// The effective content type of a header mapping: the value under
/// `content-type`, up to the first `;`.
pub open spec fn effective_ct(h: Seq<(Seq<char>, Seq<char>)>) -> Option<Seq<char>> {
    match find_header(h, "content-type"@) {
        None => None,
        Some(i) => Some(ct_prefix(h[i].1)),
    }
}

/// Whether an optional base object is usable: absent, or a JSON object.
pub open spec fn base_ok(o: Option<serde_json::Value>) -> bool {
    match o {
        None => true,
        Some(v) => jmodel(v) is Obj,
    }
}

/// The field map an optional base object starts from: its own fields, or
/// none at all.
pub open spec fn base_map(o: Option<serde_json::Value>) -> Map<Seq<char>, JsonRep> {
    match o {
        None => Map::empty(),
        Some(v) => jmodel(v).obj(),
    }
}

/// The merge of one error branch at position `i` poisons the whole fold.
proof fn lemma_merge_headers_err(
    base: Seq<(Seq<char>, Seq<char>)>,
    ov: Seq<(Seq<char>, Seq<char>)>,
    i: int,
    e: XdiffError,
)
    requires
        0 <= i < ov.len(),
        merge_headers_result(base, ov.subrange(0, i)) is Ok,
        ({
            let k = ov[i].0;
            let v = ov[i].1;
            (e == XdiffError::InvalidHeaderName && !valid_header_name(k)) || (e
                == XdiffError::InvalidHeaderValue && valid_header_name(k)
                && !valid_header_value(v))
        }),
    ensures
        merge_headers_result(base, ov) == Err::<Seq<(Seq<char>, Seq<char>)>, XdiffError>(e),
    decreases ov.len(),
{
    if i == ov.len() - 1 {
        assert(ov.subrange(0, i) =~= ov.drop_last());
        assert(ov.last() == ov[i]);
    } else {
        assert(ov.drop_last().subrange(0, i) =~= ov.subrange(0, i));
        assert(ov.drop_last()[i] == ov[i]);
        lemma_merge_headers_err(base, ov.drop_last(), i, e);
    }
}

/// The value of the last occurrence of key `k` in an override list.
pub open spec fn last_value(ov: Seq<(Seq<char>, Seq<char>)>, k: Seq<char>) -> Option<Seq<char>>
    decreases ov.len(),
{
    if ov.len() == 0 {
        None
    } else if ov.last().0 == k {
        Some(ov.last().1)
    } else {
        last_value(ov.drop_last(), k)
    }
}

/// Last write wins for query and body overrides: however often a key
/// occurs in the override list, the merged object holds the value of its
/// last occurrence.
pub proof fn lemma_obj_last_write_wins(
    m: Map<Seq<char>, JsonRep>,
    ov: Seq<(Seq<char>, Seq<char>)>,
    k: Seq<char>,
)
    requires
        last_value(ov, k) is Some,
    ensures
        merge_obj(m, ov).dom().contains(k),
        merge_obj(m, ov)[k] == JsonRep::Str(last_value(ov, k)->Some_0),
    decreases ov.len(),
{
    if ov.last().0 == k {
    } else {
        lemma_obj_last_write_wins(m, ov.drop_last(), k);
    }
}

/// A found header index is in range and names the entry found.
proof fn lemma_find_header_range(s: Seq<(Seq<char>, Seq<char>)>, name: Seq<char>)
    ensures
        find_header(s, name) matches Some(i) ==> 0 <= i < s.len() && s[i].0 == name,
    decreases s.len(),
{
    if s.len() > 0 && s[0].0 != name {
        lemma_find_header_range(s.drop_first(), name);
    }
}

/// Finding a header is stable under inserting it: the entry stays where
/// it is, or where it was pushed.
proof fn lemma_find_header_insert(
    s: Seq<(Seq<char>, Seq<char>)>,
    name: Seq<char>,
    v: Seq<char>,
)
    ensures
        ({
            let t = spec_header_insert(s, name, v);
            match find_header(s, name) {
                Some(i) => find_header(t, name) == Some(i),
                None => find_header(t, name) == Some(s.len() as int),
            }
        }),
    decreases s.len(),
{
    let t = spec_header_insert(s, name, v);
    lemma_find_header_range(s, name);
    match find_header(s, name) {
        Some(i) => {
            if s[0].0 == name {
                assert(t[0].0 == name);
            } else {
                lemma_find_header_insert(s.drop_first(), name, v);
                lemma_find_header_range(s.drop_first(), name);
                assert(t[0].0 != name);
                assert(t.drop_first() =~= spec_header_insert(s.drop_first(), name, v));
            }
        },
        None => {
            if s.len() == 0 {
                assert(t[0].0 == name);
            } else {
                lemma_find_header_insert(s.drop_first(), name, v);
                assert(t[0].0 != name);
                assert(t.drop_first() =~= spec_header_insert(s.drop_first(), name, v));
            }
        },
    }
}

/// Last write wins for header overrides: setting the same name twice
/// leaves exactly what setting it once to the later value leaves.
pub proof fn lemma_header_last_write_wins(
    s: Seq<(Seq<char>, Seq<char>)>,
    name: Seq<char>,
    v1: Seq<char>,
    v2: Seq<char>,
)
    ensures
        spec_header_insert(spec_header_insert(s, name, v1), name, v2) == spec_header_insert(
            s,
            name,
            v2,
        ),
{
    lemma_find_header_insert(s, name, v1);
    lemma_find_header_range(s, name);
    let t = spec_header_insert(s, name, v1);
    match find_header(s, name) {
        Some(i) => {
            assert(spec_header_insert(t, name, v2) =~= spec_header_insert(s, name, v2));
        },
        None => {
            assert(spec_header_insert(t, name, v2) =~= spec_header_insert(s, name, v2));
        },
    }
}

/// A header pushed at the end is found.
proof fn lemma_find_header_push(s: Seq<(Seq<char>, Seq<char>)>, name: Seq<char>, v: Seq<char>)
    ensures
        find_header(s.push((name, v)), name) is Some,
    decreases s.len(),
{
    let t = s.push((name, v));
    if s.len() == 0 {
        assert(t[0].0 == name);
    } else {
        if t[0].0 != name {
            assert(t.drop_first() =~= s.drop_first().push((name, v)));
            lemma_find_header_push(s.drop_first(), name, v);
        }
    }
}

/// The literal `content-type` is a valid stored header name, and
/// `application/json` a valid header value.
proof fn lemma_ct_literals()
    ensures
        stored_header_name("content-type"@),
        valid_header_value("application/json"@),
{
    reveal_strlit("content-type");
    reveal_strlit("application/json");
    assert(lower_seq("content-type"@) =~= "content-type"@);
}

impl RequestProfile {
    /// A profile is usable when its query and body, where given, are JSON
    /// objects; anything else is a configuration error.
    pub fn validate(&self) -> (r: Result<(), XdiffError>)
        ensures
            r is Ok <==> base_ok(self.params) && base_ok(self.body),
            r is Err ==> r == Err::<(), XdiffError>(XdiffError::ConfigValidation),
    {
        match &self.params {
            Some(v) => {
                if !json_is_object(v) {
                    return Err(XdiffError::ConfigValidation);
                }
            },
            None => {},
        }
        match &self.body {
            Some(v) => {
                if !json_is_object(v) {
                    return Err(XdiffError::ConfigValidation);
                }
            },
            None => {},
        }
        Ok(())
    }

    /// Merge the overrides into a copy of this profile and encode the
    /// body for the effective content type. Yields the merged headers,
    /// the merged query object, and the encoded body text; or the first
    /// error: an invalid header override, a non-object base query or
    /// body, an unsupported content type, or a body the form encoder
    /// refuses.
    #[verifier::loop_isolation(false)]
    pub fn generate(&self, args: &ExtraArgs) -> (r: Result<
        (Headers, serde_json::Value, String),
        XdiffError,
    >)
        requires
            self.headers.wf(),
        ensures
            ({
                let mh = merge_headers_result(self.headers@, pairs_view(args.headers@));
                match mh {
                    Err(e) => r matches Err(e2) && e2 == e,
                    Ok(h0) => {
                        let h = with_default_ct(h0);
                        let ct = effective_ct(h);
                        if !(base_ok(self.params) && base_ok(self.body)) {
                            r matches Err(e2) && e2 == XdiffError::ConfigValidation
                        } else {
                            let q = merge_obj(base_map(self.params), pairs_view(args.query@));
                            let b = merge_obj(base_map(self.body), pairs_view(args.body@));
                            if ct == Some("application/json"@) {
                                r matches Ok(t) && t.0@ == h && t.0.wf() && jmodel(t.1)
                                    == JsonRep::Obj(q) && t.2@ == compact_of(JsonRep::Obj(b))
                            } else if ct == Some("application/x-www-form-urlencoded"@) || ct
                                == Some("multipart/form-data"@) {
                                &&& (r matches Ok(t) ==> t.0@ == h && t.0.wf() && jmodel(t.1)
                                    == JsonRep::Obj(q) && t.2@ == form_of(JsonRep::Obj(b)))
                                &&& (r is Err ==> (r matches Err(e2) && e2
                                    == XdiffError::FormEncode))
                                &&& ((forall|k: Seq<char>| b.dom().contains(k) ==> b[k] is Str)
                                    ==> r is Ok)
                            } else {
                                r matches Err(e2) && e2 == XdiffError::UnsupportedContentType
                            }
                        }
                    },
                }
            }),
    {
        let ghost base_h = self.headers@;
        let ghost ov_h = pairs_view(args.headers@);
        let mut headers = self.headers.clone_headers();
        let n = args.headers.len();
        let mut i: usize = 0;
        while i < n
            invariant
                0 <= i <= n,
                n == args.headers@.len(),
                headers.wf(),
                merge_headers_result(base_h, ov_h.subrange(0, i as int)) == Ok::<
                    Seq<(Seq<char>, Seq<char>)>,
                    XdiffError,
                >(headers@),
            decreases n - i,
        {
            let k = &args.headers[i].0;
            let v = &args.headers[i].1;
            let ghost pre = headers@;
            match headers.try_insert_raw(k.as_str(), v.as_str()) {
                Ok(()) => {
                    proof {
                        assert(ov_h.subrange(0, i + 1).drop_last() =~= ov_h.subrange(0, i as int));
                        assert(ov_h.subrange(0, i + 1).last() == ov_h[i as int]);
                        assert(ov_h[i as int] == (k@, v@));
                    }
                },
                Err(e) => {
                    proof {
                        assert(ov_h[i as int] == (k@, v@));
                        lemma_merge_headers_err(base_h, ov_h, i as int, e);
                    }
                    return Err(e);
                },
            }
            i = i + 1;
        }
        proof {
            assert(ov_h.subrange(0, n as int) =~= ov_h);
        }
        if !headers.contains_key("content-type") {
            proof {
                lemma_ct_literals();
            }
            headers.insert_checked(
                "content-type".to_owned(),
                "application/json".to_owned(),
            );
        }
        let ghost h = headers@;
        proof {
            assert(h == with_default_ct(merge_headers_result(base_h, ov_h)->Ok_0));
        }
        let mut query: serde_json::Value;
        match &self.params {
            Some(v) => {
                if !json_is_object(v) {
                    return Err(XdiffError::ConfigValidation);
                }
                query = json_clone(v);
            },
            None => {
                query = json_new_object();
            },
        }
        let mut body: serde_json::Value;
        match &self.body {
            Some(v) => {
                if !json_is_object(v) {
                    return Err(XdiffError::ConfigValidation);
                }
                body = json_clone(v);
            },
            None => {
                body = json_new_object();
            },
        }
        let ghost qbase = base_map(self.params);
        let ghost bbase = base_map(self.body);
        let ghost ov_q = pairs_view(args.query@);
        let nq = args.query.len();
        let mut j: usize = 0;
        while j < nq
            invariant
                0 <= j <= nq,
                nq == args.query@.len(),
                jmodel(query) == JsonRep::Obj(merge_obj(qbase, ov_q.subrange(0, j as int))),
            decreases nq - j,
        {
            json_set_str(&mut query, args.query[j].0.as_str(), args.query[j].1.as_str());
            proof {
                assert(ov_q.subrange(0, j + 1).drop_last() =~= ov_q.subrange(0, j as int));
                assert(ov_q.subrange(0, j + 1).last() == ov_q[j as int]);
            }
            j = j + 1;
        }
        proof {
            assert(ov_q.subrange(0, nq as int) =~= ov_q);
        }
        let ghost ov_b = pairs_view(args.body@);
        let nb = args.body.len();
        let mut m: usize = 0;
        while m < nb
            invariant
                0 <= m <= nb,
                nb == args.body@.len(),
                jmodel(body) == JsonRep::Obj(merge_obj(bbase, ov_b.subrange(0, m as int))),
            decreases nb - m,
        {
            json_set_str(&mut body, args.body[m].0.as_str(), args.body[m].1.as_str());
            proof {
                assert(ov_b.subrange(0, m + 1).drop_last() =~= ov_b.subrange(0, m as int));
                assert(ov_b.subrange(0, m + 1).last() == ov_b[m as int]);
            }
            m = m + 1;
        }
        proof {
            assert(ov_b.subrange(0, nb as int) =~= ov_b);
        }
        let ct = get_content_type(&headers);
        match ct {
            Some(c) => {
                if crate::headers::str_eq(c.as_str(), "application/json") {
                    let encoded = json_to_string(&body);
                    Ok((headers, query, encoded))
                } else if crate::headers::str_eq(c.as_str(), "application/x-www-form-urlencoded")
                    || crate::headers::str_eq(c.as_str(), "multipart/form-data") {
                    match form_encode(&body) {
                        Ok(encoded) => Ok((headers, query, encoded)),
                        Err(_) => Err(XdiffError::FormEncode),
                    }
                } else {
                    Err(XdiffError::UnsupportedContentType)
                }
            },
            None => {
                proof {
                    let h0 = merge_headers_result(base_h, ov_h)->Ok_0;
                    if find_header(h0, "content-type"@) is None {
                        lemma_find_header_push(h0, "content-type"@, "application/json"@);
                    }
                    assert(false);
                }
                Err(XdiffError::UnsupportedContentType)
            },
        }
    }
}

/// The value of the `content-type` header up to the first `;`, when one
/// is set at all.
pub fn get_content_type(headers: &Headers) -> (r: Option<String>)
    ensures
        match effective_ct(headers@) {
            None => r is None,
            Some(c) => r matches Some(s) && s@ == c,
        },
{
    match headers.get("content-type") {
        None => None,
        Some(v) => {
            let s = v.as_str();
            let n: usize = s.unicode_len();
            let mut j: usize = 0;
            while j < n && s.get_char(j) != ';'
                invariant
                    0 <= j <= n,
                    n == s@.len(),
                    forall|k: int| 0 <= k < j ==> s@[k] != ';',
                decreases n - j,
            {
                j = j + 1;
            }
            if j == n {
                proof {
                    lemma_find_char_none(s@, ';');
                    assert(ct_prefix(s@) == s@);
                }
                Some(v.clone())
            } else {
                proof {
                    lemma_find_char_at(s@, ';', j as int);
                }
                Some(s.substring_char(0, j).to_owned())
            }
        },
    }
}

} // verus!
