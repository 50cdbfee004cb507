//! The snapshot codec: the on-disk text form of a list of artist records.
//! Each record is written as its id, its genre labels, and its track ids,
//! every string length-prefixed with a canonical decimal count, so the format
//! round-trips losslessly whatever characters the ids and labels contain.
//! Reading and writing the file itself is the caller's business; this module
//! only turns records into text and text back into records.
use vstd::prelude::*;

use crate::errors::PipelineError;
use crate::model::{Artist, ArtistData};
use vstd::string::StrSliceExecFns;
use vstd::string::StringExecFns;

verus! {

/// The decimal digit characters.
pub open spec fn digit_char(d: int) -> char {
    if d == 0 {
        '0'
    } else if d == 1 {
        '1'
    } else if d == 2 {
        '2'
    } else if d == 3 {
        '3'
    } else if d == 4 {
        '4'
    } else if d == 5 {
        '5'
    } else if d == 6 {
        '6'
    } else if d == 7 {
        '7'
    } else if d == 8 {
        '8'
    } else {
        '9'
    }
}

/// Whether `c` is a decimal digit character.
pub open spec fn is_digit(c: char) -> bool {
    c == '0' || c == '1' || c == '2' || c == '3' || c == '4' || c == '5' || c == '6' || c == '7'
        || c == '8' || c == '9'
}

/// The value of a digit character; zero on anything else.
pub open spec fn digit_val(c: char) -> nat {
    if c == '1' {
        1
    } else if c == '2' {
        2
    } else if c == '3' {
        3
    } else if c == '4' {
        4
    } else if c == '5' {
        5
    } else if c == '6' {
        6
    } else if c == '7' {
        7
    } else if c == '8' {
        8
    } else if c == '9' {
        9
    } else {
        0
    }
}

/// The canonical decimal form of `n`: no sign, no leading zero.
pub open spec fn dec_of(n: nat) -> Seq<char>
    decreases n,
{
    if n < 10 {
        seq![digit_char(n as int)]
    } else {
        dec_of(n / 10).push(digit_char((n % 10) as int))
    }
}

/// A length-prefixed string: its length in decimal, a colon, its characters.
pub open spec fn enc_str(v: Seq<char>) -> Seq<char> {
    dec_of(v.len()) + seq![':'] + v
}

/// The strings of a list, one length-prefixed string after the other.
pub open spec fn enc_strs(l: Seq<Seq<char>>) -> Seq<char>
    decreases l.len(),
{
    if l.len() == 0 {
        Seq::empty()
    } else {
        enc_str(l[0]) + enc_strs(l.drop_first())
    }
}

/// A string list: its count in decimal, a semicolon, the strings.
pub open spec fn enc_str_list(l: Seq<Seq<char>>) -> Seq<char> {
    dec_of(l.len()) + seq![';'] + enc_strs(l)
}

/// One artist record: id, genre labels, track ids.
pub open spec fn enc_artist(a: ArtistData) -> Seq<char> {
    enc_str(a.id) + enc_str_list(a.genres) + enc_str_list(a.tracks)
}

/// The artist records, one after the other.
pub open spec fn enc_artists(l: Seq<ArtistData>) -> Seq<char>
    decreases l.len(),
{
    if l.len() == 0 {
        Seq::empty()
    } else {
        enc_artist(l[0]) + enc_artists(l.drop_first())
    }
}

/// A whole snapshot: the record count in decimal, a semicolon, the records.
pub open spec fn enc_snapshot(l: Seq<ArtistData>) -> Seq<char> {
    dec_of(l.len()) + seq![';'] + enc_artists(l)
}

proof fn lemma_enc_strs_push(l: Seq<Seq<char>>, v: Seq<char>)
    ensures
        enc_strs(l.push(v)) == enc_strs(l) + enc_str(v),
    decreases l.len(),
{
    let p = l.push(v);
    if l.len() == 0 {
        assert(p.drop_first() =~= Seq::<Seq<char>>::empty());
        assert(enc_strs(Seq::<Seq<char>>::empty()) == Seq::<char>::empty());
        assert(p[0] == v);
        assert(enc_str(v) + Seq::<char>::empty() =~= enc_str(v));
        assert(Seq::<char>::empty() + enc_str(v) =~= enc_str(v));
    } else {
        assert(p.drop_first() =~= l.drop_first().push(v));
        lemma_enc_strs_push(l.drop_first(), v);
        assert(p[0] == l[0]);
        assert(enc_str(l[0]) + (enc_strs(l.drop_first()) + enc_str(v)) =~= (enc_str(l[0])
            + enc_strs(l.drop_first())) + enc_str(v));
    }
}

proof fn lemma_enc_artists_push(l: Seq<ArtistData>, a: ArtistData)
    ensures
        enc_artists(l.push(a)) == enc_artists(l) + enc_artist(a),
    decreases l.len(),
{
    let p = l.push(a);
    if l.len() == 0 {
        assert(p.drop_first() =~= Seq::<ArtistData>::empty());
        assert(enc_artists(Seq::<ArtistData>::empty()) == Seq::<char>::empty());
        assert(p[0] == a);
        assert(enc_artist(a) + Seq::<char>::empty() =~= enc_artist(a));
        assert(Seq::<char>::empty() + enc_artist(a) =~= enc_artist(a));
    } else {
        assert(p.drop_first() =~= l.drop_first().push(a));
        lemma_enc_artists_push(l.drop_first(), a);
        assert(p[0] == l[0]);
        assert(enc_artist(l[0]) + (enc_artists(l.drop_first()) + enc_artist(a)) =~= (enc_artist(
            l[0],
        ) + enc_artists(l.drop_first())) + enc_artist(a));
    }
}

/// The end of the run of digit characters starting at `pos`.
pub open spec fn digits_end(s: Seq<char>, pos: int) -> int
    decreases s.len() - pos
        when 0 <= pos <= s.len()
{
    if pos < s.len() && is_digit(s[pos]) {
        digits_end(s, pos + 1)
    } else {
        pos
    }
}

/// The number a run of digit characters denotes.
pub open spec fn num_val(ds: Seq<char>) -> nat
    decreases ds.len(),
{
    if ds.len() == 0 {
        0
    } else {
        num_val(ds.drop_last()) * 10 + digit_val(ds.last())
    }
}

/// Parses a canonical decimal number: at least one digit, no leading zero.
pub open spec fn parse_num(s: Seq<char>, pos: int) -> Option<(nat, int)> {
    let end = digits_end(s, pos);
    if end == pos {
        None
    } else if s[pos] == '0' && end > pos + 1 {
        None
    } else {
        Some((num_val(s.subrange(pos, end)), end))
    }
}

/// Parses one length-prefixed string.
pub open spec fn parse_str(s: Seq<char>, pos: int) -> Option<(Seq<char>, int)> {
    match parse_num(s, pos) {
        None => None,
        Some((n, p)) => if p < s.len() && s[p] == ':' && p + 1 + n <= s.len() {
            Some((s.subrange(p + 1, p + 1 + n), p + 1 + n))
        } else {
            None
        },
    }
}

/// Parses `k` length-prefixed strings, one after the other.
pub open spec fn parse_strs(s: Seq<char>, pos: int, k: nat) -> Option<(Seq<Seq<char>>, int)>
    decreases k,
{
    if k == 0 {
        Some((Seq::empty(), pos))
    } else {
        match parse_str(s, pos) {
            None => None,
            Some((v, p)) => match parse_strs(s, p, (k - 1) as nat) {
                None => None,
                Some((l, q)) => Some((seq![v] + l, q)),
            },
        }
    }
}

/// Parses a counted string list.
pub open spec fn parse_str_list(s: Seq<char>, pos: int) -> Option<(Seq<Seq<char>>, int)> {
    match parse_num(s, pos) {
        None => None,
        Some((k, p)) => if p < s.len() && s[p] == ';' {
            parse_strs(s, p + 1, k)
        } else {
            None
        },
    }
}

/// Parses one artist record: id, genre labels, track ids.
pub open spec fn parse_artist(s: Seq<char>, pos: int) -> Option<(ArtistData, int)> {
    match parse_str(s, pos) {
        None => None,
        Some((id, p1)) => match parse_str_list(s, p1) {
            None => None,
            Some((genres, p2)) => match parse_str_list(s, p2) {
                None => None,
                Some((tracks, p3)) => Some((ArtistData { id, genres, tracks }, p3)),
            },
        },
    }
}

/// Parses `k` artist records, one after the other.
pub open spec fn parse_artists(s: Seq<char>, pos: int, k: nat) -> Option<(Seq<ArtistData>, int)>
    decreases k,
{
    if k == 0 {
        Some((Seq::empty(), pos))
    } else {
        match parse_artist(s, pos) {
            None => None,
            Some((a, p)) => match parse_artists(s, p, (k - 1) as nat) {
                None => None,
                Some((l, q)) => Some((seq![a] + l, q)),
            },
        }
    }
}

/// What a snapshot text denotes: the records, if the text is exactly a
/// counted record list and nothing follows it.
pub open spec fn decode_spec(s: Seq<char>) -> Option<Seq<ArtistData>> {
    match parse_num(s, 0) {
        None => None,
        Some((k, p)) => if p < s.len() && s[p] == ';' {
            match parse_artists(s, p + 1, k) {
                None => None,
                Some((l, q)) => if q == s.len() {
                    Some(l)
                } else {
                    None
                },
            }
        } else {
            None
        },
    }
}

proof fn lemma_digits_end_range(s: Seq<char>, pos: int)
    requires
        0 <= pos <= s.len(),
    ensures
        pos <= digits_end(s, pos) <= s.len(),
        forall|k: int| pos <= k < digits_end(s, pos) ==> is_digit(#[trigger] s[k]),
        digits_end(s, pos) == s.len() || !is_digit(s[digits_end(s, pos)]),
    decreases s.len() - pos,
{
    if pos < s.len() && is_digit(s[pos]) {
        lemma_digits_end_range(s, pos + 1);
    }
}

proof fn lemma_digits_end_exact(s: Seq<char>, pos: int, e: int)
    requires
        0 <= pos <= e <= s.len(),
        forall|k: int| pos <= k < e ==> is_digit(#[trigger] s[k]),
        e == s.len() || !is_digit(s[e]),
    ensures
        digits_end(s, pos) == e,
    decreases e - pos,
{
    if pos < e {
        lemma_digits_end_exact(s, pos + 1, e);
    }
}

proof fn lemma_dec_of_digits(n: nat)
    ensures
        dec_of(n).len() >= 1,
        forall|k: int| 0 <= k < dec_of(n).len() ==> is_digit(#[trigger] dec_of(n)[k]),
        n > 0 ==> dec_of(n)[0] != '0',
        n == 0 ==> dec_of(n) == seq!['0'],
        num_val(dec_of(n)) == n,
    decreases n,
{
    if n < 10 {
        assert(dec_of(n) == seq![digit_char(n as int)]);
        assert(num_val(dec_of(n)) == num_val(dec_of(n).drop_last()) * 10 + digit_val(
            digit_char(n as int),
        ));
        assert(dec_of(n).drop_last() =~= Seq::<char>::empty());
        assert(num_val(Seq::<char>::empty()) == 0);
    } else {
        lemma_dec_of_digits(n / 10);
        let d = digit_char((n % 10) as int);
        let w = dec_of(n / 10);
        assert(dec_of(n) == w.push(d));
        assert(dec_of(n)[0] == w[0]);
        assert forall|k: int| 0 <= k < dec_of(n).len() implies is_digit(
            #[trigger] dec_of(n)[k],
        ) by {
            if k < w.len() {
                assert(dec_of(n)[k] == w[k]);
            }
        }
        assert(dec_of(n).drop_last() =~= w);
        assert(num_val(dec_of(n)) == num_val(w) * 10 + digit_val(d));
        assert(digit_val(d) == n % 10);
        vstd::arithmetic::div_mod::lemma_fundamental_div_mod(n as int, 10);
    }
}

proof fn lemma_parse_num_enc(s: Seq<char>, pos: int, n: nat)
    requires
        0 <= pos,
        pos + dec_of(n).len() <= s.len(),
        s.subrange(pos, pos + dec_of(n).len()) == dec_of(n),
        pos + dec_of(n).len() == s.len() || !is_digit(s[pos + dec_of(n).len()]),
    ensures
        parse_num(s, pos) == Some((n, pos + dec_of(n).len())),
{
    lemma_dec_of_digits(n);
    let e = pos + dec_of(n).len() as int;
    assert forall|k: int| pos <= k < e implies is_digit(#[trigger] s[k]) by {
        assert(s.subrange(pos, e)[k - pos] == s[k]);
        assert(dec_of(n)[k - pos] == s[k]);
    }
    lemma_digits_end_exact(s, pos, e);
    assert(s.subrange(pos, e)[0] == s[pos]);
    assert(s[pos] == dec_of(n)[0]);
    if s[pos] == '0' {
        assert(n == 0);
        assert(dec_of(n).len() == 1);
    }
    assert(num_val(s.subrange(pos, e)) == n);
}

proof fn lemma_parse_str_enc(s: Seq<char>, pos: int, v: Seq<char>)
    requires
        0 <= pos,
        pos + enc_str(v).len() <= s.len(),
        s.subrange(pos, pos + enc_str(v).len()) == enc_str(v),
    ensures
        parse_str(s, pos) == Some((v, pos + enc_str(v).len())),
{
    let dl = dec_of(v.len()).len() as int;
    let total = enc_str(v).len() as int;
    assert(total == dl + 1 + v.len());
    assert forall|k: int| 0 <= k < total implies s[pos + k] == enc_str(v)[k] by {
        assert(s.subrange(pos, pos + total)[k] == s[pos + k]);
    }
    assert forall|k: int| 0 <= k < dl implies s.subrange(pos, pos + dl)[k] == dec_of(v.len())[k] by {
        assert(s[pos + k] == enc_str(v)[k]);
        assert(enc_str(v)[k] == dec_of(v.len())[k]);
    }
    assert(s.subrange(pos, pos + dl) =~= dec_of(v.len()));
    assert(s[pos + dl] == enc_str(v)[dl]);
    assert(enc_str(v)[dl] == ':');
    assert(!is_digit(':'));
    lemma_parse_num_enc(s, pos, v.len());
    assert(parse_num(s, pos) == Some((v.len(), pos + dl)));
    let p = pos + dl;
    assert(p < s.len());
    assert(p + 1 + v.len() == pos + total <= s.len());
    assert forall|k: int| 0 <= k < v.len() implies s.subrange(p + 1, p + 1 + v.len() as int)[k]
        == v[k] by {
        assert(s.subrange(p + 1, p + 1 + v.len() as int)[k] == s[p + 1 + k]);
        assert(s[pos + (dl + 1 + k)] == enc_str(v)[dl + 1 + k]);
        assert(enc_str(v)[dl + 1 + k] == v[k]);
    }
    assert(s.subrange(p + 1, p + 1 + v.len() as int) =~= v);
}

proof fn lemma_parse_strs_enc(s: Seq<char>, pos: int, l: Seq<Seq<char>>)
    requires
        0 <= pos,
        pos + enc_strs(l).len() <= s.len(),
        s.subrange(pos, pos + enc_strs(l).len()) == enc_strs(l),
    ensures
        parse_strs(s, pos, l.len()) == Some((l, pos + enc_strs(l).len())),
    decreases l.len(),
{
    if l.len() == 0 {
        assert(l =~= Seq::<Seq<char>>::empty());
    } else {
        let e0 = enc_str(l[0]);
        let rest = enc_strs(l.drop_first());
        let total = enc_strs(l).len() as int;
        assert(enc_strs(l) == e0 + rest);
        assert forall|k: int| 0 <= k < total implies s[pos + k] == enc_strs(l)[k] by {
            assert(s.subrange(pos, pos + total)[k] == s[pos + k]);
        }
        assert forall|k: int| 0 <= k < e0.len() implies s.subrange(pos, pos + e0.len() as int)[k]
            == e0[k] by {
            assert(s[pos + k] == enc_strs(l)[k]);
            assert(enc_strs(l)[k] == e0[k]);
        }
        assert(s.subrange(pos, pos + e0.len() as int) =~= e0);
        lemma_parse_str_enc(s, pos, l[0]);
        let p = pos + e0.len() as int;
        assert forall|k: int| 0 <= k < rest.len() implies s.subrange(p, p + rest.len() as int)[k]
            == rest[k] by {
            assert(s.subrange(p, p + rest.len() as int)[k] == s[p + k]);
            assert(s[pos + (e0.len() + k)] == enc_strs(l)[e0.len() + k]);
            assert(enc_strs(l)[e0.len() + k] == rest[k]);
        }
        assert(s.subrange(p, p + rest.len() as int) =~= rest);
        lemma_parse_strs_enc(s, p, l.drop_first());
        assert(seq![l[0]] + l.drop_first() =~= l);
        assert(parse_strs(s, pos, l.len()) == Some((l, pos + total)));
    }
}

proof fn lemma_parse_str_list_enc(s: Seq<char>, pos: int, l: Seq<Seq<char>>)
    requires
        0 <= pos,
        pos + enc_str_list(l).len() <= s.len(),
        s.subrange(pos, pos + enc_str_list(l).len()) == enc_str_list(l),
    ensures
        parse_str_list(s, pos) == Some((l, pos + enc_str_list(l).len())),
{
    let dl = dec_of(l.len()).len() as int;
    let total = enc_str_list(l).len() as int;
    let rest = enc_strs(l);
    assert(total == dl + 1 + rest.len());
    assert forall|k: int| 0 <= k < total implies s[pos + k] == enc_str_list(l)[k] by {
        assert(s.subrange(pos, pos + total)[k] == s[pos + k]);
    }
    assert forall|k: int| 0 <= k < dl implies s.subrange(pos, pos + dl)[k] == dec_of(l.len())[k] by {
        assert(s[pos + k] == enc_str_list(l)[k]);
        assert(enc_str_list(l)[k] == dec_of(l.len())[k]);
    }
    assert(s.subrange(pos, pos + dl) =~= dec_of(l.len()));
    assert(s[pos + dl] == enc_str_list(l)[dl]);
    assert(enc_str_list(l)[dl] == ';');
    assert(!is_digit(';'));
    lemma_parse_num_enc(s, pos, l.len());
    let p = pos + dl;
    assert forall|k: int| 0 <= k < rest.len() implies s.subrange(p + 1, p + 1 + rest.len() as int)[k]
        == rest[k] by {
        assert(s.subrange(p + 1, p + 1 + rest.len() as int)[k] == s[p + 1 + k]);
        assert(s[pos + (dl + 1 + k)] == enc_str_list(l)[dl + 1 + k]);
        assert(enc_str_list(l)[dl + 1 + k] == rest[k]);
    }
    assert(s.subrange(p + 1, p + 1 + rest.len() as int) =~= rest);
    lemma_parse_strs_enc(s, p + 1, l);
}

proof fn lemma_parse_artist_enc(s: Seq<char>, pos: int, a: ArtistData)
    requires
        0 <= pos,
        pos + enc_artist(a).len() <= s.len(),
        s.subrange(pos, pos + enc_artist(a).len()) == enc_artist(a),
    ensures
        parse_artist(s, pos) == Some((a, pos + enc_artist(a).len())),
{
    let e1 = enc_str(a.id);
    let e2 = enc_str_list(a.genres);
    let e3 = enc_str_list(a.tracks);
    let total = enc_artist(a).len() as int;
    assert(total == e1.len() + e2.len() + e3.len());
    assert forall|k: int| 0 <= k < total implies s[pos + k] == enc_artist(a)[k] by {
        assert(s.subrange(pos, pos + total)[k] == s[pos + k]);
    }
    assert forall|k: int| 0 <= k < e1.len() implies s.subrange(pos, pos + e1.len() as int)[k]
        == e1[k] by {
        assert(s[pos + k] == enc_artist(a)[k]);
        assert(enc_artist(a)[k] == e1[k]);
    }
    assert(s.subrange(pos, pos + e1.len() as int) =~= e1);
    lemma_parse_str_enc(s, pos, a.id);
    let p1 = pos + e1.len() as int;
    assert forall|k: int| 0 <= k < e2.len() implies s.subrange(p1, p1 + e2.len() as int)[k]
        == e2[k] by {
        assert(s.subrange(p1, p1 + e2.len() as int)[k] == s[p1 + k]);
        assert(s[pos + (e1.len() + k)] == enc_artist(a)[e1.len() + k]);
        assert(enc_artist(a)[e1.len() + k] == e2[k]);
    }
    assert(s.subrange(p1, p1 + e2.len() as int) =~= e2);
    lemma_parse_str_list_enc(s, p1, a.genres);
    let p2 = p1 + e2.len() as int;
    assert forall|k: int| 0 <= k < e3.len() implies s.subrange(p2, p2 + e3.len() as int)[k]
        == e3[k] by {
        assert(s.subrange(p2, p2 + e3.len() as int)[k] == s[p2 + k]);
        assert(s[pos + (e1.len() + e2.len() + k)] == enc_artist(a)[e1.len() + e2.len() + k]);
        assert(enc_artist(a)[e1.len() + e2.len() + k] == e3[k]);
    }
    assert(s.subrange(p2, p2 + e3.len() as int) =~= e3);
    lemma_parse_str_list_enc(s, p2, a.tracks);
    assert(a == ArtistData { id: a.id, genres: a.genres, tracks: a.tracks });
}

proof fn lemma_parse_artists_enc(s: Seq<char>, pos: int, l: Seq<ArtistData>)
    requires
        0 <= pos,
        pos + enc_artists(l).len() <= s.len(),
        s.subrange(pos, pos + enc_artists(l).len()) == enc_artists(l),
    ensures
        parse_artists(s, pos, l.len()) == Some((l, pos + enc_artists(l).len())),
    decreases l.len(),
{
    if l.len() == 0 {
        assert(l =~= Seq::<ArtistData>::empty());
    } else {
        let e0 = enc_artist(l[0]);
        let rest = enc_artists(l.drop_first());
        let total = enc_artists(l).len() as int;
        assert(enc_artists(l) == e0 + rest);
        assert forall|k: int| 0 <= k < total implies s[pos + k] == enc_artists(l)[k] by {
            assert(s.subrange(pos, pos + total)[k] == s[pos + k]);
        }
        assert forall|k: int| 0 <= k < e0.len() implies s.subrange(pos, pos + e0.len() as int)[k]
            == e0[k] by {
            assert(s[pos + k] == enc_artists(l)[k]);
            assert(enc_artists(l)[k] == e0[k]);
        }
        assert(s.subrange(pos, pos + e0.len() as int) =~= e0);
        lemma_parse_artist_enc(s, pos, l[0]);
        let p = pos + e0.len() as int;
        assert forall|k: int| 0 <= k < rest.len() implies s.subrange(p, p + rest.len() as int)[k]
            == rest[k] by {
            assert(s.subrange(p, p + rest.len() as int)[k] == s[p + k]);
            assert(s[pos + (e0.len() + k)] == enc_artists(l)[e0.len() + k]);
            assert(enc_artists(l)[e0.len() + k] == rest[k]);
        }
        assert(s.subrange(p, p + rest.len() as int) =~= rest);
        lemma_parse_artists_enc(s, p, l.drop_first());
        assert(seq![l[0]] + l.drop_first() =~= l);
        assert(parse_artists(s, pos, l.len()) == Some((l, pos + total)));
    }
}

/// Law: decoding an encoded snapshot yields exactly the records that were
/// encoded — the cache round-trips losslessly.
pub proof fn lemma_snapshot_round_trip(l: Seq<ArtistData>)
    ensures
        decode_spec(enc_snapshot(l)) == Some(l),
{
    let s = enc_snapshot(l);
    let dl = dec_of(l.len()).len() as int;
    let rest = enc_artists(l);
    let total = s.len() as int;
    assert(total == dl + 1 + rest.len());
    assert forall|k: int| 0 <= k < dl implies s.subrange(0, dl)[k] == dec_of(l.len())[k] by {
        assert(s.subrange(0, dl)[k] == s[k]);
    }
    assert(s.subrange(0, dl) =~= dec_of(l.len()));
    assert(s[dl] == ';');
    assert(!is_digit(';'));
    lemma_parse_num_enc(s, 0, l.len());
    assert forall|k: int| 0 <= k < rest.len() implies s.subrange(dl + 1, dl + 1 + rest.len() as int)[k]
        == rest[k] by {
        assert(s.subrange(dl + 1, dl + 1 + rest.len() as int)[k] == s[dl + 1 + k]);
    }
    assert(s.subrange(dl + 1, dl + 1 + rest.len() as int) =~= rest);
    lemma_parse_artists_enc(s, dl + 1, l);
}

/// Relies on String::push: it appends the one character to the end of the
/// string.
#[verifier::external_body]
fn push_char(out: &mut String, c: char)
    ensures
        final(out)@ == old(out)@ + seq![c],
{
    out.push(c);
}

fn digit_to_char(d: usize) -> (c: char)
    requires
        d < 10,
    ensures
        c == digit_char(d as int),
{
    match d {
        0 => '0',
        1 => '1',
        2 => '2',
        3 => '3',
        4 => '4',
        5 => '5',
        6 => '6',
        7 => '7',
        8 => '8',
        _ => '9',
    }
}

fn push_dec(out: &mut String, n: usize)
    ensures
        final(out)@ == old(out)@ + dec_of(n as nat),
    decreases n,
{
    if n >= 10 {
        push_dec(out, n / 10);
    }
    let ghost mid = out@;
    let d = digit_to_char(n % 10);
    push_char(out, d);
    proof {
        if n < 10 {
            assert(n % 10 == n);
            assert(dec_of(n as nat) =~= seq![digit_char(n as int)]);
            assert(out@ =~= old(out)@ + dec_of(n as nat));
        } else {
            assert(mid == old(out)@ + dec_of((n / 10) as nat));
            assert(dec_of(n as nat) == dec_of((n / 10) as nat).push(
                digit_char((n % 10) as int),
            ));
            assert(out@ =~= old(out)@ + dec_of(n as nat));
        }
    }
}

fn push_str_enc(out: &mut String, v: &String)
    ensures
        final(out)@ == old(out)@ + enc_str(v@),
{
    let l = v.as_str().unicode_len();
    push_dec(out, l);
    push_char(out, ':');
    out.append(v.as_str());
    proof {
        assert(out@ =~= old(out)@ + enc_str(v@));
    }
}

fn push_str_list(out: &mut String, l: &Vec<String>)
    ensures
        final(out)@ == old(out)@ + enc_str_list(l.deep_view()),
{
    let ghost dv = l.deep_view();
    push_dec(out, l.len());
    push_char(out, ';');
    let ghost head = out@;
    proof {
        assert(dv.subrange(0, 0) =~= Seq::<Seq<char>>::empty());
        assert(head + enc_strs(dv.subrange(0, 0)) =~= head);
    }
    let mut i: usize = 0;
    while i < l.len()
        invariant
            i <= l@.len(),
            dv == l.deep_view(),
            dv.len() == l@.len(),
            out@ == head + enc_strs(dv.subrange(0, i as int)),
        decreases l@.len() - i,
    {
        push_str_enc(out, &l[i]);
        proof {
            let pre = dv.subrange(0, i as int);
            let post = dv.subrange(0, i + 1);
            assert(post =~= pre.push(dv[i as int]));
            lemma_enc_strs_push(pre, dv[i as int]);
            assert((head + enc_strs(pre)) + enc_str(dv[i as int]) =~= head + (enc_strs(pre)
                + enc_str(dv[i as int])));
        }
        i = i + 1;
    }
    proof {
        assert(dv.subrange(0, dv.len() as int) =~= dv);
        assert(head + enc_strs(dv) =~= old(out)@ + enc_str_list(dv));
    }
}

fn push_artist(out: &mut String, a: &Artist)
    ensures
        final(out)@ == old(out)@ + enc_artist(a@),
{
    push_str_enc(out, &a.id);
    push_str_list(out, &a.genres);
    push_str_list(out, &a.tracks);
    proof {
        assert(out@ =~= old(out)@ + enc_artist(a@));
    }
}

/// Whether the number at `pos` parses but does not fit the machine.
pub open spec fn num_too_big(s: Seq<char>, pos: int) -> bool {
    match parse_num(s, pos) {
        Some((n, _)) => n > usize::MAX,
        None => false,
    }
}

proof fn lemma_num_val_mono(s: Seq<char>, pos: int, i: int, e: int)
    requires
        0 <= pos <= i <= e <= s.len(),
    ensures
        num_val(s.subrange(pos, e)) >= num_val(s.subrange(pos, i)),
    decreases e - i,
{
    if i < e {
        lemma_num_val_mono(s, pos, i, e - 1);
        assert(s.subrange(pos, e).drop_last() =~= s.subrange(pos, e - 1));
        assert(num_val(s.subrange(pos, e)) == num_val(s.subrange(pos, e - 1)) * 10 + digit_val(
            s.subrange(pos, e).last(),
        ));
    }
}

proof fn lemma_parse_str_progress(s: Seq<char>, pos: int)
    requires
        0 <= pos <= s.len(),
    ensures
        parse_str(s, pos) matches Some(r) ==> pos < r.1 <= s.len(),
{
    lemma_digits_end_range(s, pos);
}

proof fn lemma_parse_strs_bound(s: Seq<char>, pos: int, k: nat)
    requires
        0 <= pos <= s.len(),
    ensures
        parse_strs(s, pos, k) matches Some(r) ==> pos + k <= s.len() && pos <= r.1 <= s.len(),
    decreases k,
{
    if k > 0 {
        lemma_parse_str_progress(s, pos);
        match parse_str(s, pos) {
            None => {},
            Some((v, p)) => {
                lemma_parse_strs_bound(s, p, (k - 1) as nat);
            },
        }
    }
}

proof fn lemma_parse_str_list_progress(s: Seq<char>, pos: int)
    requires
        0 <= pos <= s.len(),
    ensures
        parse_str_list(s, pos) matches Some(r) ==> pos < r.1 <= s.len(),
{
    lemma_digits_end_range(s, pos);
    match parse_num(s, pos) {
        None => {},
        Some((k, p)) => {
            if p < s.len() && s[p] == ';' {
                lemma_parse_strs_bound(s, p + 1, k);
            }
        },
    }
}

proof fn lemma_parse_artist_progress(s: Seq<char>, pos: int)
    requires
        0 <= pos <= s.len(),
    ensures
        parse_artist(s, pos) matches Some(r) ==> pos < r.1 <= s.len(),
{
    lemma_parse_str_progress(s, pos);
    match parse_str(s, pos) {
        None => {},
        Some((id, p1)) => {
            lemma_parse_str_list_progress(s, p1);
            match parse_str_list(s, p1) {
                None => {},
                Some((genres, p2)) => {
                    lemma_parse_str_list_progress(s, p2);
                },
            }
        },
    }
}

proof fn lemma_parse_artists_bound(s: Seq<char>, pos: int, k: nat)
    requires
        0 <= pos <= s.len(),
    ensures
        parse_artists(s, pos, k) matches Some(r) ==> pos + k <= s.len() && pos <= r.1 <= s.len(),
    decreases k,
{
    if k > 0 {
        lemma_parse_artist_progress(s, pos);
        match parse_artist(s, pos) {
            None => {},
            Some((a, p)) => {
                lemma_parse_artists_bound(s, p, (k - 1) as nat);
            },
        }
    }
}

proof fn lemma_strings_deep_view_push(v: Vec<String>, prev: Vec<String>, x: String)
    requires
        v@ == prev@.push(x),
    ensures
        v.deep_view() == prev.deep_view().push(x@),
{
    assert forall|k: int| 0 <= k < v@.len() implies #[trigger] v.deep_view()[k]
        == prev.deep_view().push(x@)[k] by {
        if k < prev@.len() {
            assert(v@[k] == prev@[k]);
        }
    }
    assert(v.deep_view() =~= prev.deep_view().push(x@));
}

proof fn lemma_artists_deep_view_push(v: Vec<Artist>, prev: Vec<Artist>, x: Artist)
    requires
        v@ == prev@.push(x),
    ensures
        v.deep_view() == prev.deep_view().push(x@),
{
    assert forall|k: int| 0 <= k < v@.len() implies #[trigger] v.deep_view()[k]
        == prev.deep_view().push(x@)[k] by {
        if k < prev@.len() {
            assert(v@[k] == prev@[k]);
        }
    }
    assert(v.deep_view() =~= prev.deep_view().push(x@));
}

fn chars_of(s: &str) -> (r: Vec<char>)
    ensures
        r@ == s@,
{
    let n = s.unicode_len();
    let mut r: Vec<char> = Vec::new();
    let mut i: usize = 0;
    while i < n
        invariant
            n == s@.len(),
            i <= n,
            r@ == s@.subrange(0, i as int),
        decreases n - i,
    {
        let c = s.get_char(i);
        r.push(c);
        proof {
            assert(r@ =~= s@.subrange(0, i + 1));
        }
        i = i + 1;
    }
    proof {
        assert(s@.subrange(0, n as int) =~= s@);
    }
    r
}

fn char_to_digit(c: char) -> (r: Option<usize>)
    ensures
        match r {
            Some(d) => is_digit(c) && d < 10 && d as nat == digit_val(c),
            None => !is_digit(c),
        },
{
    match c {
        '0' => Some(0),
        '1' => Some(1),
        '2' => Some(2),
        '3' => Some(3),
        '4' => Some(4),
        '5' => Some(5),
        '6' => Some(6),
        '7' => Some(7),
        '8' => Some(8),
        '9' => Some(9),
        _ => None,
    }
}

fn parse_num_exec(cs: &Vec<char>, pos: usize) -> (r: Result<(usize, usize), PipelineError>)
    requires
        pos <= cs@.len(),
    ensures
        r matches Ok(v) ==> parse_num(cs@, pos as int) == Some((v.0 as nat, v.1 as int)) && pos
            < v.1 <= cs@.len(),
        r matches Err(e) ==> e == PipelineError::CorruptData && (parse_num(cs@, pos as int)
            is None || num_too_big(cs@, pos as int)),
{
    let ghost s = cs@;
    let ghost end = digits_end(s, pos as int);
    proof {
        lemma_digits_end_range(s, pos as int);
    }
    if pos == cs.len() {
        return Err(PipelineError::CorruptData);
    }
    let d0 = match char_to_digit(cs[pos]) {
        Some(d) => d,
        None => {
            proof {
                assert(end == pos);
            }
            return Err(PipelineError::CorruptData);
        },
    };
    if d0 == 0 && pos + 1 < cs.len() {
        let next_digit = char_to_digit(cs[pos + 1]);
        if next_digit.is_some() {
            proof {
                assert(is_digit(s[pos as int]));
                assert(end == digits_end(s, pos as int + 1));
                lemma_digits_end_range(s, pos as int + 1);
                assert(end >= pos + 1);
                assert(is_digit(s[pos as int + 1]));
                assert(end > pos + 1);
                assert(s[pos as int] == '0');
            }
            return Err(PipelineError::CorruptData);
        }
    }
    proof {
        assert(is_digit(s[pos as int]));
        assert(end == digits_end(s, pos as int + 1));
        lemma_digits_end_range(s, pos as int + 1);
        assert(end >= pos + 1);
        if s[pos as int] == '0' && end > pos + 1 {
            assert(pos + 1 < s.len() || end <= pos + 1);
            assert(is_digit(s[pos as int + 1]));
        }
        assert(!(s[pos as int] == '0' && end > pos + 1));
        assert(s.subrange(pos as int, pos as int + 1).drop_last() =~= Seq::<char>::empty());
        assert(s.subrange(pos as int, pos as int + 1).last() == s[pos as int]);
        assert(num_val(Seq::<char>::empty()) == 0);
        assert(num_val(s.subrange(pos as int, pos as int + 1)) == digit_val(s[pos as int]));
    }
    let mut val: usize = d0;
    let mut i: usize = pos + 1;
    while i < cs.len()
        invariant
            s == cs@,
            pos < i <= s.len(),
            i as int <= end,
            end == digits_end(s, pos as int),
            pos as int <= end <= s.len(),
            forall|k: int| pos as int <= k < end ==> is_digit(#[trigger] s[k]),
            end == s.len() || !is_digit(s[end]),
            !(s[pos as int] == '0' && end > pos + 1),
            val as nat == num_val(s.subrange(pos as int, i as int)),
        decreases s.len() - i,
    {
        let c = cs[i];
        match char_to_digit(c) {
            None => {
                proof {
                    assert(i as int >= end);
                    assert(i as int == end);
                }
                return Ok((val, i));
            },
            Some(d) => {
                proof {
                    if i as int == end {
                        assert(!is_digit(s[end]));
                    }
                    assert((i as int) < end);
                    assert(s.subrange(pos as int, i as int + 1).drop_last() =~= s.subrange(
                        pos as int,
                        i as int,
                    ));
                    assert(s.subrange(pos as int, i as int + 1).last() == s[i as int]);
                }
                let v10 = match val.checked_mul(10) {
                    Some(x) => x,
                    None => {
                        proof {
                            lemma_num_val_mono(s, pos as int, i as int + 1, end);
                        }
                        return Err(PipelineError::CorruptData);
                    },
                };
                let v = match v10.checked_add(d) {
                    Some(x) => x,
                    None => {
                        proof {
                            lemma_num_val_mono(s, pos as int, i as int + 1, end);
                        }
                        return Err(PipelineError::CorruptData);
                    },
                };
                val = v;
                i = i + 1;
            },
        }
    }
    proof {
        assert(i as int == end);
    }
    Ok((val, i))
}

fn parse_str_exec(cs: &Vec<char>, pos: usize) -> (r: Result<(String, usize), PipelineError>)
    requires
        pos <= cs@.len(),
    ensures
        r matches Ok(v) ==> parse_str(cs@, pos as int) == Some((v.0@, v.1 as int)) && pos < v.1
            <= cs@.len(),
        r matches Err(e) ==> e == PipelineError::CorruptData && parse_str(cs@, pos as int)
            is None,
{
    let ghost s = cs@;
    let clen = cs.len();
    let (n, p) = match parse_num_exec(cs, pos) {
        Ok(x) => x,
        Err(e) => {
            proof {
                lemma_digits_end_range(s, pos as int);
                if num_too_big(s, pos as int) {
                    assert(s.len() == clen);
                }
            }
            return Err(PipelineError::CorruptData);
        },
    };
    if p == cs.len() {
        return Err(PipelineError::CorruptData);
    }
    if cs[p] != ':' {
        return Err(PipelineError::CorruptData);
    }
    let rem = cs.len() - (p + 1);
    if n > rem {
        return Err(PipelineError::CorruptData);
    }
    let mut out = String::new();
    let mut j: usize = 0;
    while j < n
        invariant
            s == cs@,
            s.len() <= usize::MAX,
            p + 1 + n <= s.len(),
            j <= n,
            out@ == s.subrange(p + 1, p + 1 + j),
        decreases n - j,
    {
        push_char(&mut out, cs[p + 1 + j]);
        proof {
            assert(s.subrange(p + 1, p + 1 + j + 1).drop_last() =~= s.subrange(p + 1, p + 1 + j));
            assert(s.subrange(p + 1, p + 1 + j + 1).last() == s[p + 1 + j]);
            assert(out@ =~= s.subrange(p + 1, p + 1 + j + 1));
        }
        j = j + 1;
    }
    Ok((out, p + 1 + n))
}

fn parse_str_list_exec(cs: &Vec<char>, pos: usize) -> (r: Result<
    (Vec<String>, usize),
    PipelineError,
>)
    requires
        pos <= cs@.len(),
    ensures
        r matches Ok(v) ==> parse_str_list(cs@, pos as int) == Some((v.0.deep_view(), v.1 as int))
            && pos < v.1 <= cs@.len(),
        r matches Err(e) ==> e == PipelineError::CorruptData && parse_str_list(cs@, pos as int)
            is None,
{
    let ghost s = cs@;
    let clen = cs.len();
    let (k, p0) = match parse_num_exec(cs, pos) {
        Ok(x) => x,
        Err(e) => {
            proof {
                lemma_digits_end_range(s, pos as int);
                if num_too_big(s, pos as int) {
                    assert(s.len() == clen);
                    match parse_num(s, pos as int) {
                        None => {},
                        Some((n2, p2)) => {
                            if p2 < s.len() && s[p2] == ';' {
                                lemma_parse_strs_bound(s, p2 + 1, n2);
                            }
                        },
                    }
                }
            }
            return Err(PipelineError::CorruptData);
        },
    };
    if p0 == cs.len() {
        return Err(PipelineError::CorruptData);
    }
    if cs[p0] != ';' {
        return Err(PipelineError::CorruptData);
    }
    let start = p0 + 1;
    let mut acc: Vec<String> = Vec::new();
    let mut cur: usize = start;
    let mut j: usize = 0;
    proof {
        assert(parse_str_list(s, pos as int) == parse_strs(s, start as int, k as nat));
        assert(acc.deep_view() =~= Seq::<Seq<char>>::empty());
        match parse_strs(s, start as int, k as nat) {
            None => {},
            Some((l, q)) => {
                assert(acc.deep_view() + l =~= l);
            },
        }
    }
    while j < k
        invariant
            s == cs@,
            pos < start <= cur <= s.len(),
            j <= k,
            acc.deep_view().len() == j,
            parse_str_list(s, pos as int) == parse_strs(s, start as int, k as nat),
            parse_strs(s, start as int, k as nat) == (match parse_strs(
                s,
                cur as int,
                (k - j) as nat,
            ) {
                None => None,
                Some((l, q)) => Some((acc.deep_view() + l, q)),
            }),
        decreases k - j,
    {
        let ghost acc_old = acc;
        let ghost cur_old = cur as int;
        let (v, p) = match parse_str_exec(cs, cur) {
            Ok(x) => x,
            Err(e) => {
                proof {
                    assert(parse_strs(s, cur as int, (k - j) as nat) is None);
                }
                return Err(PipelineError::CorruptData);
            },
        };
        acc.push(v);
        cur = p;
        j = j + 1;
        proof {
            lemma_strings_deep_view_push(acc, acc_old, v);
            assert(parse_strs(s, cur_old, (k - j + 1) as nat) == (match parse_strs(
                s,
                cur as int,
                (k - j) as nat,
            ) {
                None => None,
                Some((l, q)) => Some((seq![v@] + l, q)),
            }));
            match parse_strs(s, cur as int, (k - j) as nat) {
                None => {},
                Some((l, q)) => {
                    assert(acc_old.deep_view() + (seq![v@] + l) =~= acc.deep_view() + l);
                },
            }
        }
    }
    proof {
        assert(parse_strs(s, cur as int, 0) == Some((Seq::<Seq<char>>::empty(), cur as int)));
        assert(acc.deep_view() + Seq::<Seq<char>>::empty() =~= acc.deep_view());
    }
    Ok((acc, cur))
}

fn parse_artist_exec(cs: &Vec<char>, pos: usize) -> (r: Result<(Artist, usize), PipelineError>)
    requires
        pos <= cs@.len(),
    ensures
        r matches Ok(v) ==> parse_artist(cs@, pos as int) == Some((v.0@, v.1 as int)) && pos < v.1
            <= cs@.len(),
        r matches Err(e) ==> e == PipelineError::CorruptData && parse_artist(cs@, pos as int)
            is None,
{
    let (id, p1) = match parse_str_exec(cs, pos) {
        Ok(x) => x,
        Err(e) => {
            return Err(PipelineError::CorruptData);
        },
    };
    let (genres, p2) = match parse_str_list_exec(cs, p1) {
        Ok(x) => x,
        Err(e) => {
            return Err(PipelineError::CorruptData);
        },
    };
    let (tracks, p3) = match parse_str_list_exec(cs, p2) {
        Ok(x) => x,
        Err(e) => {
            return Err(PipelineError::CorruptData);
        },
    };
    let a = Artist { id, genres, tracks };
    Ok((a, p3))
}

fn parse_artists_exec(cs: &Vec<char>, pos: usize, k: usize) -> (r: Result<
    (Vec<Artist>, usize),
    PipelineError,
>)
    requires
        pos <= cs@.len(),
    ensures
        r matches Ok(v) ==> parse_artists(cs@, pos as int, k as nat) == Some(
            (v.0.deep_view(), v.1 as int),
        ) && pos <= v.1 <= cs@.len(),
        r matches Err(e) ==> e == PipelineError::CorruptData && parse_artists(
            cs@,
            pos as int,
            k as nat,
        ) is None,
{
    let ghost s = cs@;
    let mut acc: Vec<Artist> = Vec::new();
    let mut cur: usize = pos;
    let mut j: usize = 0;
    proof {
        assert(acc.deep_view() =~= Seq::<ArtistData>::empty());
        match parse_artists(s, pos as int, k as nat) {
            None => {},
            Some((l, q)) => {
                assert(acc.deep_view() + l =~= l);
            },
        }
    }
    while j < k
        invariant
            s == cs@,
            pos <= cur <= s.len(),
            j <= k,
            acc.deep_view().len() == j,
            parse_artists(s, pos as int, k as nat) == (match parse_artists(
                s,
                cur as int,
                (k - j) as nat,
            ) {
                None => None,
                Some((l, q)) => Some((acc.deep_view() + l, q)),
            }),
        decreases k - j,
    {
        let ghost acc_old = acc;
        let ghost cur_old = cur as int;
        let (a, p) = match parse_artist_exec(cs, cur) {
            Ok(x) => x,
            Err(e) => {
                proof {
                    assert(parse_artists(s, cur as int, (k - j) as nat) is None);
                }
                return Err(PipelineError::CorruptData);
            },
        };
        acc.push(a);
        cur = p;
        j = j + 1;
        proof {
            lemma_artists_deep_view_push(acc, acc_old, a);
            assert(parse_artists(s, cur_old, (k - j + 1) as nat) == (match parse_artists(
                s,
                cur as int,
                (k - j) as nat,
            ) {
                None => None,
                Some((l, q)) => Some((seq![a@] + l, q)),
            }));
            match parse_artists(s, cur as int, (k - j) as nat) {
                None => {},
                Some((l, q)) => {
                    assert(acc_old.deep_view() + (seq![a@] + l) =~= acc.deep_view() + l);
                },
            }
        }
    }
    proof {
        assert(parse_artists(s, cur as int, 0) == Some((Seq::<ArtistData>::empty(), cur as int)));
        assert(acc.deep_view() + Seq::<ArtistData>::empty() =~= acc.deep_view());
    }
    Ok((acc, cur))
}

/// Reads a snapshot back from its text form. `CorruptData` comes exactly when
/// the text is not the encoding of any record list.
pub fn decode_snapshot(s: &str) -> (r: Result<Vec<Artist>, PipelineError>)
    ensures
        r matches Ok(v) ==> decode_spec(s@) == Some(v.deep_view()),
        r matches Err(e) ==> e == PipelineError::CorruptData && decode_spec(s@) is None,
{
    let cs = chars_of(s);
    let ghost sv = s@;
    let clen = cs.len();
    let (k, p0) = match parse_num_exec(&cs, 0) {
        Ok(x) => x,
        Err(e) => {
            proof {
                lemma_digits_end_range(sv, 0);
                if num_too_big(sv, 0) {
                    assert(sv.len() == clen);
                    match parse_num(sv, 0) {
                        None => {},
                        Some((n2, p2)) => {
                            if p2 < sv.len() && sv[p2] == ';' {
                                lemma_parse_artists_bound(sv, p2 + 1, n2);
                            }
                        },
                    }
                }
            }
            return Err(PipelineError::CorruptData);
        },
    };
    if p0 == cs.len() {
        return Err(PipelineError::CorruptData);
    }
    if cs[p0] != ';' {
        return Err(PipelineError::CorruptData);
    }
    let (artists, p) = match parse_artists_exec(&cs, p0 + 1, k) {
        Ok(x) => x,
        Err(e) => {
            return Err(PipelineError::CorruptData);
        },
    };
    if p != cs.len() {
        return Err(PipelineError::CorruptData);
    }
    Ok(artists)
}

/// Writes the snapshot out as text, in the length-prefixed form that
/// [`decode_snapshot`](crate::codec) reads back.
pub fn encode_snapshot(artists: &Vec<Artist>) -> (out: String)
    ensures
        out@ == enc_snapshot(artists.deep_view()),
{
    let ghost dv = artists.deep_view();
    let mut out = String::new();
    push_dec(&mut out, artists.len());
    push_char(&mut out, ';');
    let ghost head = out@;
    proof {
        assert(dv.subrange(0, 0) =~= Seq::<ArtistData>::empty());
        assert(head + enc_artists(dv.subrange(0, 0)) =~= head);
    }
    let mut i: usize = 0;
    while i < artists.len()
        invariant
            i <= artists@.len(),
            dv == artists.deep_view(),
            dv.len() == artists@.len(),
            out@ == head + enc_artists(dv.subrange(0, i as int)),
        decreases artists@.len() - i,
    {
        push_artist(&mut out, &artists[i]);
        proof {
            let pre = dv.subrange(0, i as int);
            let post = dv.subrange(0, i + 1);
            assert(post =~= pre.push(dv[i as int]));
            lemma_enc_artists_push(pre, dv[i as int]);
            assert((head + enc_artists(pre)) + enc_artist(dv[i as int]) =~= head + (enc_artists(pre)
                + enc_artist(dv[i as int])));
        }
        i = i + 1;
    }
    proof {
        assert(dv.subrange(0, dv.len() as int) =~= dv);
        assert(head + enc_artists(dv) =~= enc_snapshot(dv));
    }
    out
}

} // verus!
