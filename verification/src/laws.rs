//! Laws of the pipeline, stated over the spec functions that the entry
//! points' contracts use.
use vstd::prelude::*;
use crate::SpecRequest;
use crate::error::SpecError;
use crate::grammar::SpecFragment;
use crate::method::{method_get, method_post};
use crate::parser::{
    SpecAcc, accept_any, accept_key, authorization_key, content_type_key, spec_header_step,
    spec_normalize, spec_parse, spec_reduce, spec_reduce_from, spec_step,
};
use crate::text::{spec_find, spec_trim, spec_unescape, lower_seq};

verus! {

/// Parsing is deterministic: two parses of identical text yield identical
/// results, field for field.
pub proof fn lemma_parse_idempotent(
    text: Seq<char>,
    r1: Result<SpecRequest, SpecError>,
    r2: Result<SpecRequest, SpecError>,
)
    requires
        r1 == spec_parse(text),
        r2 == spec_parse(text),
    ensures
        r1 == r2,
{
}

/// Reduction adds a body fragment only for a body-producing flag, and a
/// method only for a method flag, counting only fragments before the
/// first end-of-input.
proof fn lemma_reduce_tracks(acc: SpecAcc, fs: Seq<SpecFragment>)
    requires
        spec_reduce_from(acc, fs) is Ok,
    ensures
        ({
            let out = spec_reduce_from(acc, fs)->Ok_0;
            &&& (forall|i: int| 0 <= i < fs.len() ==> !(fs[i] is Body)) ==> out.body == acc.body
            &&& (forall|i: int| 0 <= i < fs.len() ==> !(fs[i] is Method)) ==> out.method
                == acc.method
            &&& out.body.len() >= acc.body.len()
            &&& (exists|i: int|
                0 <= i < fs.len() && fs[i] is Body && (forall|j: int|
                    0 <= j < i ==> !(fs[j] is EndOfInput))) ==> out.body.len() > acc.body.len()
        }),
    decreases fs.len(),
{
    if fs.len() == 0 {
    } else {
        match fs[0] {
            SpecFragment::EndOfInput => {
                assert forall|i: int|
                    0 <= i < fs.len() && fs[i] is Body implies !(forall|j: int|
                    0 <= j < i ==> !(fs[j] is EndOfInput)) by {
                    assert(fs[0] is EndOfInput);
                }
            },
            _ => {
                let a2 = spec_step(acc, fs[0])->Ok_0;
                lemma_reduce_tracks(a2, fs.drop_first());
                let out = spec_reduce_from(acc, fs)->Ok_0;
                if exists|i: int|
                    0 <= i < fs.len() && fs[i] is Body && (forall|j: int|
                        0 <= j < i ==> !(fs[j] is EndOfInput)) {
                    let i = choose|i: int|
                        0 <= i < fs.len() && fs[i] is Body && (forall|j: int|
                            0 <= j < i ==> !(fs[j] is EndOfInput));
                    if i == 0 {
                        assert(a2.body.len() > acc.body.len());
                    } else {
                        let rest = fs.drop_first();
                        assert(rest[i - 1] is Body);
                        assert forall|j: int| 0 <= j < i - 1 implies !(rest[j] is EndOfInput) by {
                            assert(fs[j + 1] == rest[j]);
                        }
                        assert(exists|i2: int|
                            0 <= i2 < rest.len() && rest[i2] is Body && (forall|j: int|
                                0 <= j < i2 ==> !(rest[j] is EndOfInput)));
                    }
                }
                assert forall|i: int| 0 <= i < fs.drop_first().len() implies fs.drop_first()[i]
                    == fs[i + 1] by {}
            },
        }
    }
}

/// With no body fragments and no explicit method, the final method is GET
/// and normalization injects no Content-Type: the final headers hold one
/// exactly when reduction already did.
pub proof fn lemma_default_get(fs: Seq<SpecFragment>)
    requires
        spec_reduce(fs) is Ok,
        forall|i: int| 0 <= i < fs.len() ==> !(fs[i] is Body),
        forall|i: int| 0 <= i < fs.len() ==> !(fs[i] is Method),
    ensures
        spec_normalize(spec_reduce(fs)->Ok_0).method == method_get(),
        spec_normalize(spec_reduce(fs)->Ok_0).headers.contains_key(content_type_key())
            == spec_reduce(fs)->Ok_0.headers.contains_key(content_type_key()),
{
    lemma_reduce_tracks(crate::parser::empty_acc(), fs);
}

/// With at least one body fragment before the end of input and no
/// explicit method, the final method is POST.
pub proof fn lemma_body_upgrades_to_post(fs: Seq<SpecFragment>)
    requires
        spec_reduce(fs) is Ok,
        exists|i: int|
            0 <= i < fs.len() && fs[i] is Body && (forall|j: int|
                0 <= j < i ==> !(fs[j] is EndOfInput)),
        forall|i: int| 0 <= i < fs.len() ==> !(fs[i] is Method),
    ensures
        spec_normalize(spec_reduce(fs)->Ok_0).method == method_post(),
{
    lemma_reduce_tracks(crate::parser::empty_acc(), fs);
}

/// The case-normalized name a header fragment writes.
pub open spec fn header_name_of(t: Seq<char>) -> Seq<char>
    recommends
        spec_find(t, 0, ':') is Some,
{
    lower_seq(spec_trim(t.take(spec_find(t, 0, ':')->Some_0)))
}

/// The unescaped value a header fragment writes.
pub open spec fn header_value_of(t: Seq<char>) -> Seq<char>
    recommends
        spec_find(t, 0, ':') is Some,
{
    spec_unescape(spec_trim(t.skip(spec_find(t, 0, ':')->Some_0 + 1)))
}

/// Header overwrite: two header fragments for the same case-normalized
/// name, applied in order, leave the second fragment's value in the map.
pub proof fn lemma_header_overwrite(acc: SpecAcc, t1: Seq<char>, t2: Seq<char>)
    requires
        spec_header_step(acc, t1) is Ok,
        spec_header_step(spec_header_step(acc, t1)->Ok_0, t2) is Ok,
        header_name_of(t1) == header_name_of(t2),
    ensures
        ({
            let h = spec_header_step(spec_header_step(acc, t1)->Ok_0, t2)->Ok_0.headers;
            h.contains_key(header_name_of(t2)) && h[header_name_of(t2)] == header_value_of(t2)
        }),
{
}

/// Whether successfully applying a fragment writes the header name `k`.
pub open spec fn writes_name(f: SpecFragment, k: Seq<char>) -> bool {
    match f {
        SpecFragment::Header(t) => spec_find(t, 0, ':') is Some && header_name_of(t) == k,
        SpecFragment::Auth(_) => k == authorization_key(),
        _ => false,
    }
}

/// The value a header-writing fragment stores.
pub open spec fn written_value(f: SpecFragment) -> Seq<char> {
    match f {
        SpecFragment::Header(t) => header_value_of(t),
        SpecFragment::Auth(t) => crate::parser::basic_prefix() + crate::encode::base64_of(t),
        _ => Seq::empty(),
    }
}

/// A name present in the accumulator survives, with its value, any run of
/// fragments that never writes it.
proof fn lemma_reduce_preserves(acc: SpecAcc, fs: Seq<SpecFragment>, k: Seq<char>)
    requires
        spec_reduce_from(acc, fs) is Ok,
        acc.headers.contains_key(k),
        forall|j: int| 0 <= j < fs.len() ==> !writes_name(fs[j], k),
    ensures
        spec_reduce_from(acc, fs)->Ok_0.headers.contains_key(k),
        spec_reduce_from(acc, fs)->Ok_0.headers[k] == acc.headers[k],
    decreases fs.len(),
{
    if fs.len() == 0 {
    } else {
        match fs[0] {
            SpecFragment::EndOfInput => {},
            _ => {
                let a2 = spec_step(acc, fs[0])->Ok_0;
                assert(a2.headers.contains_key(k) && a2.headers[k] == acc.headers[k]);
                assert forall|j: int| 0 <= j < fs.drop_first().len() implies !writes_name(
                    fs.drop_first()[j],
                    k,
                ) by {
                    assert(fs.drop_first()[j] == fs[j + 1]);
                }
                lemma_reduce_preserves(a2, fs.drop_first(), k);
            },
        }
    }
}

/// Last write wins: the final value under a header name is the one
/// stored by the last reachable fragment that writes that name.
pub proof fn lemma_header_last_write_wins(fs: Seq<SpecFragment>, k: Seq<char>, idx: int)
    requires
        spec_reduce(fs) is Ok,
        0 <= idx < fs.len(),
        writes_name(fs[idx], k),
        forall|j: int| 0 <= j <= idx ==> !(fs[j] is EndOfInput),
        forall|j: int| idx < j < fs.len() ==> !writes_name(fs[j], k),
    ensures
        spec_reduce(fs)->Ok_0.headers.contains_key(k),
        spec_reduce(fs)->Ok_0.headers[k] == written_value(fs[idx]),
{
    lemma_reduce_last_write(crate::parser::empty_acc(), fs, k, idx);
}

proof fn lemma_reduce_last_write(acc: SpecAcc, fs: Seq<SpecFragment>, k: Seq<char>, idx: int)
    requires
        spec_reduce_from(acc, fs) is Ok,
        0 <= idx < fs.len(),
        writes_name(fs[idx], k),
        forall|j: int| 0 <= j <= idx ==> !(fs[j] is EndOfInput),
        forall|j: int| idx < j < fs.len() ==> !writes_name(fs[j], k),
    ensures
        spec_reduce_from(acc, fs)->Ok_0.headers.contains_key(k),
        spec_reduce_from(acc, fs)->Ok_0.headers[k] == written_value(fs[idx]),
    decreases fs.len(),
{
    let a2 = spec_step(acc, fs[0])->Ok_0;
    let rest = fs.drop_first();
    assert forall|j: int| 0 <= j < rest.len() implies rest[j] == fs[j + 1] by {}
    if idx == 0 {
        assert(a2.headers.contains_key(k) && a2.headers[k] == written_value(fs[0]));
        lemma_reduce_preserves(a2, rest, k);
    } else {
        lemma_reduce_last_write(a2, rest, k, idx - 1);
    }
}

/// A name no reachable fragment writes stays absent through reduction.
proof fn lemma_reduce_keeps_absent(acc: SpecAcc, fs: Seq<SpecFragment>, k: Seq<char>)
    requires
        spec_reduce_from(acc, fs) is Ok,
        !acc.headers.contains_key(k),
        k != authorization_key(),
        forall|i: int|
            0 <= i < fs.len() && fs[i] is Header ==> header_name_of(fs[i]->Header_0) != k,
    ensures
        !spec_reduce_from(acc, fs)->Ok_0.headers.contains_key(k),
    decreases fs.len(),
{
    if fs.len() == 0 {
    } else {
        match fs[0] {
            SpecFragment::EndOfInput => {},
            _ => {
                let a2 = spec_step(acc, fs[0])->Ok_0;
                assert forall|i: int|
                    0 <= i < fs.drop_first().len() && fs.drop_first()[i] is Header implies
                    header_name_of(fs.drop_first()[i]->Header_0) != k by {
                    assert(fs.drop_first()[i] == fs[i + 1]);
                }
                assert(!a2.headers.contains_key(k));
                lemma_reduce_keeps_absent(a2, fs.drop_first(), k);
            },
        }
    }
}

/// Accept defaulting: when no header fragment names `accept`, the final
/// headers hold `Accept: */*`; and whatever the input, the final headers
/// hold an Accept entry.
pub proof fn lemma_accept_defaulted(fs: Seq<SpecFragment>)
    requires
        spec_reduce(fs) is Ok,
        forall|i: int|
            0 <= i < fs.len() && fs[i] is Header ==> header_name_of(fs[i]->Header_0)
                != accept_key(),
    ensures
        spec_normalize(spec_reduce(fs)->Ok_0).headers.contains_key(accept_key()),
        spec_normalize(spec_reduce(fs)->Ok_0).headers[accept_key()] == accept_any(),
{
    lemma_reduce_keeps_absent(crate::parser::empty_acc(), fs, accept_key());
}

/// The final headers always hold an Accept entry.
pub proof fn lemma_accept_always_present(acc: SpecAcc)
    ensures
        spec_normalize(acc).headers.contains_key(accept_key()),
{
}

/// For any input whose fragment stream holds no body fragment and no
/// method fragment, parsing yields method GET, and a Content-Type is
/// present only if the input itself set one.
pub proof fn lemma_parse_default_get(s: Seq<char>, fs: Seq<SpecFragment>)
    requires
        crate::grammar::spec_tokenize(s) == Ok::<_, SpecError>(fs),
        spec_parse(s) is Ok,
        forall|i: int| 0 <= i < fs.len() ==> !(fs[i] is Body),
        forall|i: int| 0 <= i < fs.len() ==> !(fs[i] is Method),
    ensures
        spec_parse(s)->Ok_0.method == method_get(),
        spec_parse(s)->Ok_0.headers.contains_key(content_type_key()) == spec_reduce(
            fs,
        )->Ok_0.headers.contains_key(content_type_key()),
{
    lemma_default_get(fs);
}

/// For any input whose fragment stream holds a body fragment before the
/// end of input and no method fragment, parsing yields method POST.
pub proof fn lemma_parse_body_post(s: Seq<char>, fs: Seq<SpecFragment>)
    requires
        crate::grammar::spec_tokenize(s) == Ok::<_, SpecError>(fs),
        spec_parse(s) is Ok,
        exists|i: int|
            0 <= i < fs.len() && fs[i] is Body && (forall|j: int|
                0 <= j < i ==> !(fs[j] is EndOfInput)),
        forall|i: int| 0 <= i < fs.len() ==> !(fs[i] is Method),
    ensures
        spec_parse(s)->Ok_0.method == method_post(),
{
    lemma_body_upgrades_to_post(fs);
}

/// For any input, a successful parse yields headers holding an Accept
/// entry; when no header fragment named `accept`, its value is `*/*`.
pub proof fn lemma_parse_accept(s: Seq<char>, fs: Seq<SpecFragment>)
    requires
        crate::grammar::spec_tokenize(s) == Ok::<_, SpecError>(fs),
        spec_parse(s) is Ok,
    ensures
        spec_parse(s)->Ok_0.headers.contains_key(accept_key()),
        (forall|i: int|
            0 <= i < fs.len() && fs[i] is Header ==> header_name_of(fs[i]->Header_0)
                != accept_key()) ==> spec_parse(s)->Ok_0.headers[accept_key()] == accept_any(),
{
    if forall|i: int|
        0 <= i < fs.len() && fs[i] is Header ==> header_name_of(fs[i]->Header_0) != accept_key() {
        lemma_accept_defaulted(fs);
    }
}

/// For any input whose scanner, after the leading word, reaches a
/// position where a value-taking flag stands with only whitespace after
/// it, the whole parse is a grammar error — returned, never a crash.
pub proof fn lemma_parse_missing_value(s: Seq<char>, j: int)
    requires
        0 <= j <= s.len(),
        ({
            let a = crate::grammar::skip_comments(s, 0);
            &&& a < s.len()
            &&& crate::grammar::read_token(s, a) is Some
            &&& crate::grammar::read_token(s, a)->Some_0.raw =~= crate::grammar::curl_word()
            &&& crate::grammar::scan_reaches(s, crate::grammar::read_token(s, a)->Some_0.end, j)
        }),
        crate::grammar::skip_ws(s, j) < s.len(),
        crate::grammar::read_token(s, crate::grammar::skip_ws(s, j)) is Some,
        crate::grammar::value_flag_fragment(
            crate::grammar::read_token(s, crate::grammar::skip_ws(s, j))->Some_0.raw,
        ) is Some,
        crate::grammar::skip_ws(
            s,
            crate::grammar::read_token(s, crate::grammar::skip_ws(s, j))->Some_0.end,
        ) >= s.len(),
    ensures
        spec_parse(s) == Err::<SpecRequest, SpecError>(SpecError::Grammar),
{
    crate::grammar::lemma_skip_comments_stop(s, 0);
    let a = crate::grammar::skip_comments(s, 0);
    crate::grammar::lemma_read_token(s, a);
    let t0 = crate::grammar::read_token(s, a)->Some_0;
    crate::grammar::lemma_missing_value(s, j);
    crate::grammar::lemma_scan_error_propagates(s, t0.end, j, SpecError::Grammar);
}

/// An escaped double quote at the head of a value unescapes to the
/// literal quote character.
pub proof fn lemma_escaped_quote(s: Seq<char>)
    ensures
        spec_unescape(seq!['\\', '"'] + s) == seq!['"'] + spec_unescape(s),
{
    let t = seq!['\\', '"'] + s;
    assert(t.len() >= 2);
    assert(t[0] == '\\');
    assert(t[1] == '"');
    assert(t.skip(2) =~= s);
}

/// For any input whose scanner, after the leading word, reaches a header
/// flag with value token `val`, a successful tokenization's stream holds
/// the fragment `Header(val.inner)`.  Reducing that fragment stores the
/// unescaped trimmed value, in which an escaped double quote is the
/// literal quote character ([`lemma_header_escaped_quote`]).
pub proof fn lemma_tokenize_header_fragment(s: Seq<char>, j: int, val: crate::grammar::SpecToken)
    requires
        0 <= j <= s.len(),
        ({
            let a = crate::grammar::skip_comments(s, 0);
            &&& a < s.len()
            &&& crate::grammar::read_token(s, a) is Some
            &&& crate::grammar::read_token(s, a)->Some_0.raw =~= crate::grammar::curl_word()
            &&& crate::grammar::scan_reaches(s, crate::grammar::read_token(s, a)->Some_0.end, j)
        }),
        crate::grammar::header_at(s, j, val),
        crate::grammar::spec_tokenize(s) is Ok,
    ensures
        exists|k: int|
            0 <= k < crate::grammar::spec_tokenize(s)->Ok_0.len()
                && crate::grammar::spec_tokenize(s)->Ok_0[k] == SpecFragment::Header(val.inner),
{
    crate::grammar::lemma_skip_comments_stop(s, 0);
    let a = crate::grammar::skip_comments(s, 0);
    crate::grammar::lemma_read_token(s, a);
    let t0 = crate::grammar::read_token(s, a)->Some_0;
    crate::grammar::lemma_scan_header_fragment(s, t0.end, j, val);
}

/// The stored value of a header fragment renders an escaped double quote
/// in its (trimmed) value text as the literal quote character.
pub proof fn lemma_header_escaped_quote(acc: SpecAcc, t: Seq<char>, a: Seq<char>, b: Seq<char>)
    requires
        spec_header_step(acc, t) is Ok,
        crate::text::escapes_closed(a),
        spec_trim(t.skip(spec_find(t, 0, ':')->Some_0 + 1)) == a + seq!['\\', '"'] + b,
    ensures
        spec_header_step(acc, t)->Ok_0.headers.contains_key(header_name_of(t)),
        spec_header_step(acc, t)->Ok_0.headers[header_name_of(t)] == spec_unescape(a) + seq!['"']
            + spec_unescape(b),
{
    lemma_escaped_quote_anywhere(a, b);
}

/// An escaped double quote anywhere after an escape-closed prefix
/// unescapes to the literal quote character.
pub proof fn lemma_escaped_quote_anywhere(a: Seq<char>, b: Seq<char>)
    requires
        crate::text::escapes_closed(a),
    ensures
        spec_unescape(a + seq!['\\', '"'] + b) == spec_unescape(a) + seq!['"'] + spec_unescape(b),
{
    assert(a + seq!['\\', '"'] + b =~= a + (seq!['\\', '"'] + b));
    crate::text::lemma_unescape_append(a, seq!['\\', '"'] + b);
    lemma_escaped_quote(b);
    assert(spec_unescape(a) + (seq!['"'] + spec_unescape(b)) =~= spec_unescape(a) + seq!['"']
        + spec_unescape(b));
}

} // verus!
