//! Header multimaps: flattening a name -> values collection into one entry
//! per value, on the request side (byte values that must be text) and on the
//! response side (names that must parse as canonical header names).

use crate::error::{DispatchError, ErrorKind};
use vstd::prelude::*;
use vstd::utf8::{decode_utf8, valid_utf8};

verus! {

/// One entry per value, in the order of the names and, under each name, in
/// the order of its values.
pub open spec fn flatten<K, V>(h: Seq<(K, Seq<V>)>) -> Seq<(K, V)>
    decreases h.len(),
{
    if h.len() == 0 {
        Seq::empty()
    } else {
        flatten(h.drop_last()) + entries_of(h.last())
    }
}

/// The entries that one name with its values contributes.
pub open spec fn entries_of<K, V>(p: (K, Seq<V>)) -> Seq<(K, V)> {
    p.1.map_values(|v: V| (p.0, v))
}

/// All values listed under `k`, in order, over every occurrence of `k`.
pub open spec fn values_under<K, V>(h: Seq<(K, Seq<V>)>, k: K) -> Seq<V>
    decreases h.len(),
{
    if h.len() == 0 {
        Seq::empty()
    } else if h.last().0 == k {
        values_under(h.drop_last(), k) + h.last().1
    } else {
        values_under(h.drop_last(), k)
    }
}

/// The values of the flattened entries whose name is `k`, in order.
pub open spec fn flat_values_of<K, V>(s: Seq<(K, V)>, k: K) -> Seq<V> {
    s.filter(|p: (K, V)| p.0 == k).map_values(|p: (K, V)| p.1)
}

proof fn lemma_filter_all<A>(s: Seq<A>, pred: spec_fn(A) -> bool)
    requires
        forall|i: int| 0 <= i < s.len() ==> pred(s[i]),
    ensures
        s.filter(pred) == s,
    decreases s.len(),
{
    reveal(Seq::filter);
    if s.len() > 0 {
        lemma_filter_all(s.drop_last(), pred);
        assert(s.drop_last().push(s.last()) =~= s);
    }
}

proof fn lemma_filter_none<A>(s: Seq<A>, pred: spec_fn(A) -> bool)
    requires
        forall|i: int| 0 <= i < s.len() ==> !pred(s[i]),
    ensures
        s.filter(pred) == Seq::<A>::empty(),
    decreases s.len(),
{
    reveal(Seq::filter);
    if s.len() > 0 {
        lemma_filter_none(s.drop_last(), pred);
    }
}

/// Flattening loses no value and reorders none: for every name, the
/// flattened entries under that name carry exactly the values listed under
/// it, in their order of arrival. In particular a name with N values yields
/// exactly N entries.
pub proof fn lemma_flatten_keeps_values<K, V>(h: Seq<(K, Seq<V>)>, k: K)
    ensures
        flat_values_of(flatten(h), k) == values_under(h, k),
        flat_values_of(flatten(h), k).len() == values_under(h, k).len(),
    decreases h.len(),
{
    let pred = |p: (K, V)| p.0 == k;
    if h.len() == 0 {
        assert(flatten(h).filter(pred) =~= Seq::<(K, V)>::empty()) by {
            reveal(Seq::filter);
        }
        assert(flat_values_of(flatten(h), k) =~= Seq::<V>::empty());
    } else {
        let rest = h.drop_last();
        let tail = entries_of(h.last());
        lemma_flatten_keeps_values(rest, k);
        Seq::filter_distributes_over_add(flatten(rest), tail, pred);
        if h.last().0 == k {
            lemma_filter_all(tail, pred);
            assert(tail.map_values(|p: (K, V)| p.1) =~= h.last().1);
        } else {
            lemma_filter_none(tail, pred);
        }
        assert(flat_values_of(flatten(h), k) =~= flat_values_of(flatten(rest), k)
            + tail.filter(pred).map_values(|p: (K, V)| p.1));
    }
}

/// When names are distinct, the entries under a present name are exactly that
/// name's values, in order.
pub proof fn lemma_flatten_distinct_names<K, V>(h: Seq<(K, Seq<V>)>, i: int)
    requires
        0 <= i < h.len(),
        forall|a: int, b: int| 0 <= a < b < h.len() ==> h[a].0 != h[b].0,
    ensures
        flat_values_of(flatten(h), h[i].0) == h[i].1,
        flat_values_of(flatten(h), h[i].0).len() == h[i].1.len(),
{
    lemma_flatten_keeps_values(h, h[i].0);
    lemma_values_under_single(h, i);
}

proof fn lemma_values_under_single<K, V>(h: Seq<(K, Seq<V>)>, i: int)
    requires
        0 <= i < h.len(),
        forall|a: int, b: int| 0 <= a < b < h.len() ==> h[a].0 != h[b].0,
    ensures
        values_under(h, h[i].0) == h[i].1,
    decreases h.len(),
{
    let rest = h.drop_last();
    if i == h.len() - 1 {
        lemma_values_under_absent(rest, h[i].0);
        assert(Seq::<V>::empty() + h[i].1 =~= h[i].1);
    } else {
        assert(rest[i] == h[i]);
        lemma_values_under_single(rest, i);
    }
}

proof fn lemma_values_under_absent<K, V>(h: Seq<(K, Seq<V>)>, k: K)
    requires
        forall|a: int| 0 <= a < h.len() ==> h[a].0 != k,
    ensures
        values_under(h, k) == Seq::<V>::empty(),
    decreases h.len(),
{
    if h.len() > 0 {
        lemma_values_under_absent(h.drop_last(), k);
    }
}


/// Every character is ASCII.
pub open spec fn is_ascii_text(s: Seq<char>) -> bool {
    forall|i: int| 0 <= i < s.len() ==> (s[i] as u32) < 128
}

/// Relies on std::str::from_utf8: it succeeds exactly on valid UTF-8, and the
/// text it gives is what the bytes encode.
#[verifier::external_body]
fn utf8_text(b: &[u8]) -> (r: Result<String, String>)
    ensures
        r is Ok <==> valid_utf8(b@),
        r matches Ok(s) ==> s@ == decode_utf8(b@),
{
    match std::str::from_utf8(b) {
        Ok(s) => Ok(s.to_string()),
        Err(e) => Err(e.to_string()),
    }
}

/// Relies on http_types' `HeaderName::from_str`, and on `HeaderName::as_str`
/// for the name it will send: it accepts exactly the ASCII strings and keeps
/// them in lower case.
#[verifier::external_body]
fn request_header_name(s: &str) -> (r: Result<String, String>)
    ensures
        r is Ok <==> is_ascii_text(s@),
        r matches Ok(t) ==> is_lowered(s@, t@),
{
    match <http_types::headers::HeaderName as std::str::FromStr>::from_str(s) {
        Ok(n) => Ok(n.as_str().to_string()),
        Err(e) => Err(e.to_string()),
    }
}

/// Relies on http_types' `HeaderValue::from_str`: it accepts exactly the ASCII
/// strings.
#[verifier::external_body]
fn request_header_value(s: &str) -> (r: Result<(), String>)
    ensures
        r is Ok <==> is_ascii_text(s@),
{
    match <http_types::headers::HeaderValue as std::str::FromStr>::from_str(s) {
        Ok(_) => Ok(()),
        Err(e) => Err(e.to_string()),
    }
}

/// The request header multimap as names over lists of byte strings.
pub open spec fn request_header_model(h: Seq<(String, Vec<Vec<u8>>)>) -> Seq<
    (Seq<char>, Seq<Seq<u8>>),
> {
    h.map_values(|p: (String, Vec<Vec<u8>>)| (p.0@, p.1@.map_values(|v: Vec<u8>| v@)))
}

/// Why one flattened request header entry cannot be sent, if it cannot: the
/// value must be UTF-8 text, and the name and the text must be ASCII.
pub open spec fn request_entry_error(e: (Seq<char>, Seq<u8>)) -> Option<ErrorKind> {
    if !valid_utf8(e.1) {
        Some(ErrorKind::HeaderUtf8)
    } else if !(is_ascii_text(e.0) && is_ascii_text(decode_utf8(e.1))) {
        Some(ErrorKind::HeaderAscii)
    } else {
        None
    }
}

/// The error of the first entry, in order, that cannot be sent.
pub open spec fn first_request_error(s: Seq<(Seq<char>, Seq<u8>)>) -> Option<ErrorKind>
    decreases s.len(),
{
    if s.len() == 0 {
        None
    } else if first_request_error(s.drop_last()) is Some {
        first_request_error(s.drop_last())
    } else {
        request_entry_error(s.last())
    }
}

/// The entries with their values decoded as text.
pub open spec fn decoded_entries(s: Seq<(Seq<char>, Seq<u8>)>) -> Seq<(Seq<char>, Seq<char>)> {
    s.map_values(|e: (Seq<char>, Seq<u8>)| (e.0, decode_utf8(e.1)))
}

/// The text of name/value string pairs.
pub open spec fn text_pairs(v: Seq<(String, String)>) -> Seq<(Seq<char>, Seq<char>)> {
    v.map_values(|p: (String, String)| (p.0@, p.1@))
}

proof fn lemma_first_error_push(s: Seq<(Seq<char>, Seq<u8>)>, e: (Seq<char>, Seq<u8>))
    ensures
        first_request_error(s.push(e)) == if first_request_error(s) is Some {
            first_request_error(s)
        } else {
            request_entry_error(e)
        },
{
    assert(s.push(e).drop_last() =~= s);
}

proof fn lemma_first_error_append(s: Seq<(Seq<char>, Seq<u8>)>, t: Seq<(Seq<char>, Seq<u8>)>)
    requires
        first_request_error(s) is Some,
    ensures
        first_request_error(s + t) == first_request_error(s),
    decreases t.len(),
{
    if t.len() == 0 {
        assert(s + t =~= s);
    } else {
        lemma_first_error_append(s, t.drop_last());
        assert((s + t).drop_last() =~= s + t.drop_last());
    }
}

proof fn lemma_flatten_take_step<K, V>(h: Seq<(K, Seq<V>)>, i: int)
    requires
        0 <= i < h.len(),
    ensures
        flatten(h.take(i + 1)) == flatten(h.take(i)) + entries_of(h[i]),
{
    assert(h.take(i + 1).drop_last() =~= h.take(i));
}

proof fn lemma_first_error_of_prefix(h: Seq<(Seq<char>, Seq<Seq<u8>>)>, k: int)
    requires
        0 <= k <= h.len(),
        first_request_error(flatten(h.take(k))) is Some,
    ensures
        first_request_error(flatten(h)) == first_request_error(flatten(h.take(k))),
    decreases h.len() - k,
{
    if k == h.len() {
        assert(h.take(k) =~= h);
    } else {
        lemma_flatten_take_step(h, k);
        lemma_first_error_append(flatten(h.take(k)), entries_of(h[k]));
        lemma_first_error_of_prefix(h, k + 1);
    }
}

/// Translates the request header multimap into one (name, value) entry per
/// value, in arrival order, with no deduplication; names are lower-cased, as
/// they are sent. Fails on the first entry whose value is not UTF-8 text, or
/// whose name or text is not ASCII.
pub fn request_headers(h: &Vec<(String, Vec<Vec<u8>>)>) -> (r: Result<Vec<(String, String)>, DispatchError>)
    ensures
        match r {
            Ok(out) => first_request_error(flatten(request_header_model(h@))) is None
                && canonical_entries(decoded_entries(flatten(request_header_model(h@))), out@),
            Err(e) => first_request_error(flatten(request_header_model(h@))) == Some(e.kind),
        },
{
    let ghost model = request_header_model(h@);
    let mut text: Vec<(String, String)> = Vec::new();
    let mut i: usize = 0;
    while i < h.len()
        invariant
            0 <= i <= h.len(),
            model == request_header_model(h@),
            first_request_error(flatten(model.take(i as int))) is None,
            canonical_entries(decoded_entries(flatten(model.take(i as int))), text@),
        decreases h.len() - i,
    {
        let name = &h[i].0;
        let values = &h[i].1;
        let ghost done = flatten(model.take(i as int));
        let ghost ents = entries_of(model[i as int]);
        proof {
            lemma_flatten_take_step(model, i as int);
        }
        let mut j: usize = 0;
        while j < values.len()
            invariant
                0 <= i < h.len(),
                0 <= j <= values.len(),
                name == &h@[i as int].0,
                values == &h@[i as int].1,
                model == request_header_model(h@),
                ents == entries_of(model[i as int]),
                ents.len() == values.len(),
                flatten(model.take(i as int + 1)) == done + ents,
                first_request_error(done + ents.take(j as int)) is None,
                canonical_entries(decoded_entries(done + ents.take(j as int)), text@),
            decreases values.len() - j,
        {
            let value = &values[j];
            let ghost prefix = done + ents.take(j as int);
            let ghost e = ents[j as int];
            assert(e == (name@, value@));
            assert(done + ents.take(j as int + 1) =~= prefix.push(e));
            proof {
                lemma_first_error_push(prefix, e);
                assert(done + ents =~= prefix.push(e) + ents.skip(j as int + 1));
            }
            let s = match utf8_text(value.as_slice()) {
                Ok(s) => s,
                Err(m) => {
                    proof {
                        lemma_first_error_append(prefix.push(e), ents.skip(j as int + 1));
                        lemma_first_error_of_prefix(model, i as int + 1);
                    }
                    return Err(DispatchError::new(ErrorKind::HeaderUtf8, m));
                },
            };
            let hn = match request_header_name(name.as_str()) {
                Ok(n) => n,
                Err(m) => {
                    proof {
                        lemma_first_error_append(prefix.push(e), ents.skip(j as int + 1));
                        lemma_first_error_of_prefix(model, i as int + 1);
                    }
                    return Err(DispatchError::new(ErrorKind::HeaderAscii, m));
                },
            };
            match request_header_value(s.as_str()) {
                Err(m) => {
                    proof {
                        lemma_first_error_append(prefix.push(e), ents.skip(j as int + 1));
                        lemma_first_error_of_prefix(model, i as int + 1);
                    }
                    return Err(DispatchError::new(ErrorKind::HeaderAscii, m));
                },
                Ok(()) => {},
            }
            assert(s@ == decode_utf8(e.1));
            text.push((hn, s));
            assert(decoded_entries(prefix.push(e)) =~= decoded_entries(prefix).push(
                (e.0, decode_utf8(e.1)),
            ));
            j = j + 1;
        }
        assert(ents.take(j as int) =~= ents);
        i = i + 1;
    }
    assert(model.take(i as int) =~= model);
    Ok(text)
}


/// A byte that http's header-name table accepts (a token character).
pub open spec fn is_header_name_char(c: char) -> bool {
    let u = c as u32;
    (33 <= u <= 39) || u == 42 || u == 43 || u == 45 || u == 46 || (48 <= u <= 57) || (65 <= u
        <= 90) || (94 <= u <= 122) || u == 124 || u == 126
}

/// A valid header name: non-empty, at most 65535 bytes, token characters only.
pub open spec fn is_header_name(s: Seq<char>) -> bool {
    0 < s.len() <= 65535 && forall|i: int| 0 <= i < s.len() ==> is_header_name_char(s[i])
}

/// ASCII lowercasing of one character code.
pub open spec fn lower_code(u: u32) -> u32 {
    if 65 <= u <= 90 {
        (u + 32) as u32
    } else {
        u
    }
}

/// `t` is `s` with its ASCII capitals lowered.
pub open spec fn is_lowered(s: Seq<char>, t: Seq<char>) -> bool {
    t.len() == s.len() && forall|i: int| 0 <= i < s.len() ==> (t[i] as u32) == lower_code(s[i] as u32)
}

/// Relies on http's `HeaderName::from_bytes`, and on `HeaderName::as_str` for
/// the canonical text: a name is accepted exactly when it is a valid header
/// name, and its canonical text is the name in lower case.
#[verifier::external_body]
fn response_header_name(s: &str) -> (r: Result<String, String>)
    ensures
        r is Ok <==> is_header_name(s@),
        r matches Ok(t) ==> is_lowered(s@, t@),
{
    match http::HeaderName::from_bytes(s.as_bytes()) {
        Ok(n) => Ok(n.as_str().to_string()),
        Err(e) => Err(e.to_string()),
    }
}

/// The response header collection as names over lists of values.
pub open spec fn response_header_model(h: Seq<(String, Vec<String>)>) -> Seq<
    (Seq<char>, Seq<Seq<char>>),
> {
    h.map_values(|p: (String, Vec<String>)| (p.0@, p.1@.map_values(|v: String| v@)))
}

/// `out` holds the entries of `flat`, one for one, with canonical names.
pub open spec fn canonical_entries(
    flat: Seq<(Seq<char>, Seq<char>)>,
    out: Seq<(String, String)>,
) -> bool {
    out.len() == flat.len() && forall|k: int|
        0 <= k < flat.len() ==> is_lowered(flat[k].0, #[trigger] out[k].0@) && out[k].1@
            == flat[k].1
}

/// Translates the response header collection: each name is parsed once into
/// its canonical form, then one entry is emitted per value, preserving order.
/// Fails when some name is not a valid header name.
pub fn response_headers(h: &Vec<(String, Vec<String>)>) -> (r: Result<
    Vec<(String, String)>,
    DispatchError,
>)
    ensures
        match r {
            Ok(out) => (forall|i: int| 0 <= i < h@.len() ==> is_header_name(#[trigger] h@[i].0@))
                && canonical_entries(flatten(response_header_model(h@)), out@),
            Err(e) => e.kind == ErrorKind::HeaderName && exists|i: int|
                0 <= i < h@.len() && !is_header_name(#[trigger] h@[i].0@),
        },
{
    let ghost model = response_header_model(h@);
    let mut text: Vec<(String, String)> = Vec::new();
    let mut i: usize = 0;
    while i < h.len()
        invariant
            0 <= i <= h.len(),
            model == response_header_model(h@),
            forall|a: int| 0 <= a < i ==> is_header_name(#[trigger] h@[a].0@),
            canonical_entries(flatten(model.take(i as int)), text@),
        decreases h.len() - i,
    {
        let name = &h[i].0;
        let values = &h[i].1;
        let parsed = match response_header_name(name.as_str()) {
            Ok(p) => p,
            Err(m) => {
                assert(!is_header_name(h@[i as int].0@));
                return Err(DispatchError::new(ErrorKind::HeaderName, m));
            },
        };
        let ghost done = flatten(model.take(i as int));
        let ghost ents = entries_of(model[i as int]);
        proof {
            lemma_flatten_take_step(model, i as int);
        }
        let mut j: usize = 0;
        while j < values.len()
            invariant
                0 <= i < h.len(),
                0 <= j <= values.len(),
                name == &h@[i as int].0,
                values == &h@[i as int].1,
                is_lowered(name@, parsed@),
                model == response_header_model(h@),
                ents == entries_of(model[i as int]),
                ents.len() == values.len(),
                canonical_entries(done + ents.take(j as int), text@),
            decreases values.len() - j,
        {
            let ghost before = text@;
            let ghost e = ents[j as int];
            assert(e == (name@, values@[j as int]@));
            text.push((parsed.clone(), values[j].clone()));
            assert(done + ents.take(j as int + 1) =~= (done + ents.take(j as int)).push(e));
            j = j + 1;
        }
        assert(ents.take(j as int) =~= ents);
        i = i + 1;
    }
    assert(model.take(i as int) =~= model);
    Ok(text)
}


proof fn lemma_first_error_found(s: Seq<(Seq<char>, Seq<u8>)>, k: int)
    requires
        0 <= k < s.len(),
        request_entry_error(s[k]) is Some,
    ensures
        first_request_error(s) is Some,
    decreases s.len(),
{
    if k < s.len() - 1 {
        lemma_first_error_found(s.drop_last(), k);
    }
}

/// A header value that is not valid UTF-8 makes the header translation fail,
/// wherever it stands.
pub proof fn lemma_invalid_utf8_rejected(h: Seq<(String, Vec<Vec<u8>>)>, i: int, j: int)
    requires
        0 <= i < h.len(),
        0 <= j < h[i].1@.len(),
        !valid_utf8(h[i].1@[j]@),
    ensures
        first_request_error(flatten(request_header_model(h))) is Some,
{
    let model = request_header_model(h);
    let done = flatten(model.take(i));
    let ents = entries_of(model[i]);
    lemma_flatten_take_step(model, i);
    assert((done + ents)[done.len() + j] == ents[j]);
    lemma_first_error_found(done + ents, done.len() + j);
    lemma_first_error_of_prefix(model, i + 1);
}


/// The header model with every value decoded as text.
pub open spec fn decoded_model(h: Seq<(Seq<char>, Seq<Seq<u8>>)>) -> Seq<(Seq<char>, Seq<Seq<char>>)> {
    h.map_values(|p: (Seq<char>, Seq<Seq<u8>>)| (p.0, p.1.map_values(|v: Seq<u8>| decode_utf8(v))))
}

proof fn lemma_decoded_flatten(h: Seq<(Seq<char>, Seq<Seq<u8>>)>)
    ensures
        decoded_entries(flatten(h)) == flatten(decoded_model(h)),
    decreases h.len(),
{
    if h.len() > 0 {
        lemma_decoded_flatten(h.drop_last());
        assert(decoded_model(h).drop_last() =~= decoded_model(h.drop_last()));
        assert(decoded_entries(entries_of(h.last())) =~= entries_of(decoded_model(h).last()));
        assert(decoded_entries(flatten(h)) =~= decoded_entries(flatten(h.drop_last()))
            + decoded_entries(entries_of(h.last())));
    }
}

proof fn lemma_decoded_values_under(h: Seq<(Seq<char>, Seq<Seq<u8>>)>, k: Seq<char>)
    ensures
        values_under(decoded_model(h), k) == values_under(h, k).map_values(
            |v: Seq<u8>| decode_utf8(v),
        ),
    decreases h.len(),
{
    if h.len() > 0 {
        lemma_decoded_values_under(h.drop_last(), k);
        assert(decoded_model(h).drop_last() =~= decoded_model(h.drop_last()));
        if h.last().0 == k {
            assert((values_under(h.drop_last(), k) + h.last().1).map_values(
                |v: Seq<u8>| decode_utf8(v),
            ) =~= values_under(h.drop_last(), k).map_values(|v: Seq<u8>| decode_utf8(v))
                + h.last().1.map_values(|v: Seq<u8>| decode_utf8(v)));
        }
    }
}

/// No ASCII capital letter occurs in `s`.
pub open spec fn is_lower_text(s: Seq<char>) -> bool {
    forall|i: int| 0 <= i < s.len() ==> !(65 <= (#[trigger] s[i] as u32) <= 90)
}

proof fn lemma_flatten_names<K, V>(h: Seq<(K, Seq<V>)>, k: int)
    requires
        0 <= k < flatten(h).len(),
    ensures
        exists|i: int| 0 <= i < h.len() && flatten(h)[k].0 == #[trigger] h[i].0,
    decreases h.len(),
{
    let rest = h.drop_last();
    if k < flatten(rest).len() {
        lemma_flatten_names(rest, k);
        let i = choose|i: int| 0 <= i < rest.len() && flatten(rest)[k].0 == #[trigger] rest[i].0;
        assert(h[i] == rest[i]);
    } else {
        assert(flatten(h)[k].0 == h[h.len() - 1].0);
    }
}

proof fn lemma_lower_names_kept(h: Seq<(Seq<char>, Seq<Seq<char>>)>, out: Seq<(String, String)>)
    requires
        forall|i: int| 0 <= i < h.len() ==> is_lower_text(#[trigger] h[i].0),
        canonical_entries(flatten(h), out),
    ensures
        text_pairs(out) == flatten(h),
{
    let flat = flatten(h);
    assert forall|j: int| 0 <= j < flat.len() implies #[trigger] text_pairs(out)[j] == flat[j] by {
        lemma_flatten_names(h, j);
        let n = flat[j].0;
        let t = out[j].0@;
        assert(is_lower_text(n));
        assert forall|c: int| 0 <= c < n.len() implies t[c] == n[c] by {
            vstd::utf8::char_u32_cast(t[c], t[c] as u32);
            vstd::utf8::char_u32_cast(n[c], n[c] as u32);
        }
        assert(t =~= n);
    }
    assert(text_pairs(out) =~= flat);
}

/// The translated request headers keep, for every name, all of its values,
/// decoded, in their order of arrival: a name with N values gives N entries.
/// Names are taken as a signed request stores them, in lower case.
pub proof fn lemma_request_headers_keep_values(
    h: Seq<(String, Vec<Vec<u8>>)>,
    out: Seq<(String, String)>,
    k: Seq<char>,
)
    requires
        forall|i: int| 0 <= i < h.len() ==> is_lower_text(#[trigger] h[i].0@),
        canonical_entries(decoded_entries(flatten(request_header_model(h))), out),
    ensures
        flat_values_of(text_pairs(out), k) == values_under(request_header_model(h), k).map_values(
            |v: Seq<u8>| decode_utf8(v),
        ),
        flat_values_of(text_pairs(out), k).len() == values_under(request_header_model(h), k).len(),
{
    let model = request_header_model(h);
    let dm = decoded_model(model);
    lemma_decoded_flatten(model);
    assert forall|i: int| 0 <= i < dm.len() implies is_lower_text(#[trigger] dm[i].0) by {
        assert(dm[i].0 == h[i].0@);
    }
    lemma_lower_names_kept(dm, out);
    lemma_flatten_keeps_values(dm, k);
    lemma_decoded_values_under(model, k);
}

/// The translated response headers keep, for every name, all of its values in
/// their order of arrival: a name with N values gives N entries. Names are
/// taken as the response carries them, in lower case.
pub proof fn lemma_response_headers_keep_values(
    h: Seq<(String, Vec<String>)>,
    out: Seq<(String, String)>,
    k: Seq<char>,
)
    requires
        forall|i: int| 0 <= i < h.len() ==> is_lower_text(#[trigger] h[i].0@),
        canonical_entries(flatten(response_header_model(h)), out),
    ensures
        flat_values_of(text_pairs(out), k) == values_under(response_header_model(h), k),
        flat_values_of(text_pairs(out), k).len() == values_under(response_header_model(h), k).len(),
{
    let model = response_header_model(h);
    assert forall|i: int| 0 <= i < model.len() implies is_lower_text(#[trigger] model[i].0) by {
        assert(model[i].0 == h[i].0@);
    }
    lemma_lower_names_kept(model, out);
    lemma_flatten_keeps_values(model, k);
}

} // verus!
