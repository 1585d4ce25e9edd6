use vstd::prelude::*;
use vstd::utf8::*;

use crate::patches::is_utf8;
use crate::pcm::{hex, hex_bytes, SourceKey};
use crate::text::{find, find_bytes_from, find_from, lemma_find_bound, lemma_find_suffix, same_bytes, slice_bytes};

verus! {

/// The largest sound file that is prepared.
pub const MAX_SOURCE_BYTES: u64 = 16 * 1024 * 1024;

/// The largest cache index that is read.
pub const MAX_INDEX_BYTES: u64 = 64 * 1024;

/// Progress of audio preparation: sounds done, sounds in all, and PCM bytes written.
#[derive(Clone, Copy, Debug)]
pub struct CacheProgress {
    pub completed: usize,
    pub total: usize,
    pub bytes: u64,
}

/// What an audio cache holds: long sounds prepared, their PCM bytes, and whether an existing
/// index was reused.
#[derive(Clone, Copy, Debug, PartialEq, Eq, Structural)]
pub struct CacheSummary {
    pub files: usize,
    pub bytes: u64,
    pub reused: bool,
}

/// `BALCACHE1`.
pub open spec fn index_tag() -> Seq<u8> {
    seq![66u8, 65u8, 76u8, 67u8, 65u8, 67u8, 72u8, 69u8, 49u8]
}

/// The byte at `i`, or -1 past the end.
pub open spec fn byte_at(s: Seq<u8>, i: int) -> int {
    if 0 <= i < s.len() {
        s[i] as int
    } else {
        -1
    }
}

/// The length in bytes of the UTF-8 encoded white-space character (Unicode `White_Space`)
/// that starts at `i`, or 0 where none does.
pub open spec fn ws_len(s: Seq<u8>, i: int) -> int {
    let b0 = byte_at(s, i);
    let b1 = byte_at(s, i + 1);
    let b2 = byte_at(s, i + 2);
    if (9 <= b0 <= 13) || b0 == 32 {
        1
    } else if b0 == 0xc2 && (b1 == 0x85 || b1 == 0xa0) {
        2
    } else if b0 == 0xe1 && b1 == 0x9a && b2 == 0x80 {
        3
    } else if b0 == 0xe2 && b1 == 0x80 && ((0x80 <= b2 <= 0x8a) || b2 == 0xa8 || b2 == 0xa9 || b2 == 0xaf) {
        3
    } else if b0 == 0xe2 && b1 == 0x81 && b2 == 0x9f {
        3
    } else if b0 == 0xe3 && b1 == 0x80 && b2 == 0x80 {
        3
    } else {
        0
    }
}

/// The white-space separated fields of `s` from `i` on, where a field began at `start`
/// (negative where none is open).
pub open spec fn fields_from(s: Seq<u8>, i: int, start: int) -> Seq<Seq<u8>>
    decreases s.len() - i,
{
    if i >= s.len() || i < 0 {
        if start >= 0 {
            seq![s.subrange(start, s.len() as int)]
        } else {
            Seq::empty()
        }
    } else if ws_len(s, i) > 0 {
        let done = if start >= 0 {
            seq![s.subrange(start, i)]
        } else {
            Seq::empty()
        };
        done + fields_from(s, i + ws_len(s, i), -1)
    } else {
        fields_from(s, i + 1, if start >= 0 { start } else { i })
    }
}

/// The white-space separated fields of `s`, as `str::split_whitespace` gives them.
pub open spec fn fields(s: Seq<u8>) -> Seq<Seq<u8>> {
    fields_from(s, 0, -1)
}

/// A line without the carriage return before its newline.
pub open spec fn strip_cr(l: Seq<u8>) -> Seq<u8> {
    if l.len() > 0 && l.last() == 13u8 {
        l.drop_last()
    } else {
        l
    }
}

/// The lines of `s`, as `str::lines` gives them: split at newlines, each without its
/// newline and a carriage return before it; a final newline ends the last line.
pub open spec fn lines(s: Seq<u8>) -> Seq<Seq<u8>>
    decreases s.len(),
{
    if s.len() == 0 {
        Seq::empty()
    } else {
        match find(s, seq![10u8]) {
            Some(p) => if 0 <= p < s.len() {
                seq![strip_cr(s.subrange(0, p))] + lines(s.subrange(p + 1, s.len() as int))
            } else {
                seq![s]
            },
            None => seq![s],
        }
    }
}

/// The number written by decimal digits.
pub open spec fn digits_value(d: Seq<u8>) -> nat
    decreases d.len(),
{
    if d.len() == 0 {
        0
    } else {
        digits_value(d.drop_last()) * 10 + (d.last() - 48) as nat
    }
}

pub open spec fn all_digits(d: Seq<u8>) -> bool {
    forall|i: int| 0 <= i < d.len() ==> 48 <= #[trigger] d[i] <= 57
}

/// The number `usize::from_str` reads from `s`: decimal digits after an optional `+`.
pub open spec fn parse_usize(s: Seq<u8>) -> Option<nat> {
    let d = if s.len() > 0 && s[0] == 43u8 {
        s.drop_first()
    } else {
        s
    };
    if d.len() == 0 || !all_digits(d) || digits_value(d) > usize::MAX {
        None
    } else {
        Some(digits_value(d))
    }
}

pub open spec fn is_hex_digit(c: u8) -> bool {
    (48 <= c <= 57) || (97 <= c <= 102) || (65 <= c <= 70)
}

pub open spec fn hex_value(c: u8) -> int {
    if 48 <= c <= 57 {
        c - 48
    } else if 97 <= c <= 102 {
        c - 87
    } else {
        c - 55
    }
}

/// The key a line of the index lists: 64 hexadecimal digits, two per byte.
pub open spec fn key_line(l: Seq<u8>) -> Option<Seq<u8>> {
    if l.len() == 64 && forall|i: int| 0 <= i < 64 ==> is_hex_digit(#[trigger] l[i]) {
        Some(Seq::new(32, |k: int| (16 * hex_value(l[2 * k]) + hex_value(l[2 * k + 1])) as u8))
    } else {
        None
    }
}

/// The keys listed by lines, where each line lists one.
pub open spec fn key_lines(ls: Seq<Seq<u8>>) -> Option<Seq<Seq<u8>>>
    decreases ls.len(),
{
    if ls.len() == 0 {
        Some(Seq::empty())
    } else {
        match (key_lines(ls.drop_last()), key_line(ls.last())) {
            (Some(keys), Some(k)) => Some(keys.push(k)),
            _ => None,
        }
    }
}

/// What a cache index says, read with `signature` for `sounds` sounds: the number of cached
/// files it promises and their keys; `None` where it does not belong to that archive or is
/// malformed.
pub open spec fn index_entries(text: Seq<u8>, signature: Seq<u8>, sounds: nat) -> Option<(nat, Seq<Seq<u8>>)> {
    let ls = lines(text);
    if text.len() > MAX_INDEX_BYTES || !valid_utf8(text) || ls.len() == 0 {
        None
    } else {
        let f = fields(ls[0]);
        if f.len() != 4 || f[0] != index_tag() || f[1] != signature || parse_usize(f[2]) != Some(sounds) {
            None
        } else {
            match (parse_usize(f[3]), key_lines(ls.skip(1))) {
                (Some(expected), Some(keys)) => if expected > sounds {
                    None
                } else {
                    Some((expected, keys))
                },
                _ => None,
            }
        }
    }
}

/// The header line of `text` is well formed for `signature` and `sounds` and promises
/// `expected` files.
pub open spec fn header_ok(text: Seq<u8>, signature: Seq<u8>, sounds: nat, expected: nat) -> bool {
    let ls = lines(text);
    let f = fields(ls[0]);
    &&& text.len() <= MAX_INDEX_BYTES
    &&& valid_utf8(text)
    &&& ls.len() > 0
    &&& f.len() == 4
    &&& f[0] == index_tag()
    &&& f[1] == signature
    &&& parse_usize(f[2]) == Some(sounds)
    &&& parse_usize(f[3]) == Some(expected)
}

/// The length of the white-space character at `i`.
fn ws_len_exec(s: &[u8], i: usize) -> (n: usize)
    requires
        i < s.len(),
    ensures
        n == ws_len(s@, i as int),
{
    let b0 = s[i] as i32;
    let b1: i32 = if s.len() - i > 1 { s[i + 1] as i32 } else { -1 };
    let b2: i32 = if s.len() - i > 2 { s[i + 2] as i32 } else { -1 };
    if (9 <= b0 && b0 <= 13) || b0 == 32 {
        1
    } else if b0 == 0xc2 && (b1 == 0x85 || b1 == 0xa0) {
        2
    } else if b0 == 0xe1 && b1 == 0x9a && b2 == 0x80 {
        3
    } else if b0 == 0xe2 && b1 == 0x80 && ((0x80 <= b2 && b2 <= 0x8a) || b2 == 0xa8 || b2 == 0xa9 || b2
        == 0xaf) {
        3
    } else if b0 == 0xe2 && b1 == 0x81 && b2 == 0x9f {
        3
    } else if b0 == 0xe3 && b1 == 0x80 && b2 == 0x80 {
        3
    } else {
        0
    }
}

/// The contents of byte strings.
pub open spec fn contents(v: Seq<Vec<u8>>) -> Seq<Seq<u8>> {
    Seq::new(v.len(), |i: int| v[i]@)
}

proof fn lemma_contents_push(v: Seq<Vec<u8>>, x: Vec<u8>)
    ensures
        contents(v.push(x)) == contents(v).push(x@),
{
    assert(contents(v.push(x)) =~= contents(v).push(x@));
}

/// The white-space separated fields of `s`.
pub fn split_fields(s: &[u8]) -> (out: Vec<Vec<u8>>)
    ensures
        contents(out@) == fields(s@),
{
    let mut out: Vec<Vec<u8>> = Vec::new();
    let mut i: usize = 0;
    let mut start: usize = 0;
    let mut open = false;
    while i < s.len()
        invariant
            i <= s.len(),
            open ==> start < i,
            contents(out@) + fields_from(s@, i as int, if open { start as int } else { -1 }) == fields(s@),
        decreases s.len() - i,
    {
        let w = ws_len_exec(s, i);
        if w > 0 {
            let ghost before = contents(out@);
            if open {
                let f = slice_bytes(s, start, i);
                out.push(f);
                proof {
                    lemma_contents_push(out@.drop_last(), f);
                    assert(out@.drop_last().push(f) == out@);
                }
            }
            proof {
                let done = if open { seq![s@.subrange(start as int, i as int)] } else { Seq::<Seq<u8>>::empty() };
                assert(contents(out@) =~= before + done);
                assert(before + (done + fields_from(s@, i + w, -1)) =~= (before + done) + fields_from(s@, i + w, -1));
            }
            open = false;
            i = i + w;
        } else {
            if !open {
                start = i;
                open = true;
            }
            i = i + 1;
        }
    }
    if open {
        let f = slice_bytes(s, start, s.len());
        let ghost before = contents(out@);
        out.push(f);
        proof {
            lemma_contents_push(out@.drop_last(), f);
            assert(out@.drop_last().push(f) == out@);
            assert(contents(out@) =~= before + seq![s@.subrange(start as int, s.len() as int)]);
        }
    } else {
        assert(contents(out@) + Seq::<Seq<u8>>::empty() =~= contents(out@));
    }
    out
}

/// The lines of `s`.
pub fn split_lines(s: &[u8]) -> (out: Vec<Vec<u8>>)
    ensures
        contents(out@) == lines(s@),
{
    let mut out: Vec<Vec<u8>> = Vec::new();
    let mut pos: usize = 0;
    let nl: [u8; 1] = [10u8];
    assert(s@.subrange(0, s.len() as int) =~= s@);
    assert(contents(out@) + lines(s@) =~= lines(s@));
    while pos < s.len()
        invariant
            pos <= s.len(),
            nl@ == seq![10u8],
            contents(out@) + lines(s@.subrange(pos as int, s.len() as int)) == lines(s@),
        decreases s.len() - pos,
    {
        let ghost t = s@.subrange(pos as int, s.len() as int);
        let ghost before = contents(out@);
        proof {
            lemma_find_suffix(s@, seq![10u8], pos as int, pos as int);
            lemma_find_bound(t, seq![10u8]);
        }
        match find_bytes_from(s, &nl, pos) {
            Some(p) => {
                let end = if p > pos && s[p - 1] == 13u8 { p - 1 } else { p };
                let line = slice_bytes(s, pos, end);
                out.push(line);
                proof {
                    lemma_contents_push(out@.drop_last(), line);
                    assert(out@.drop_last().push(line) == out@);
                    let q = p - pos;
                    assert(find(t, seq![10u8]) == Some(q as int));
                    assert(t.subrange(0, q as int) =~= s@.subrange(pos as int, p as int));
                    assert(strip_cr(t.subrange(0, q as int)) =~= s@.subrange(pos as int, end as int));
                    assert(t.subrange(q + 1, t.len() as int) =~= s@.subrange(p + 1, s.len() as int));
                    assert(contents(out@) =~= before.push(s@.subrange(pos as int, end as int)));
                    assert(lines(t) == seq![s@.subrange(pos as int, end as int)] + lines(s@.subrange(p + 1, s.len() as int)));
                    assert(before + lines(t) =~= contents(out@) + lines(s@.subrange(p + 1, s.len() as int)));
                }
                pos = p + 1;
            },
            None => {
                let line = slice_bytes(s, pos, s.len());
                out.push(line);
                proof {
                    lemma_contents_push(out@.drop_last(), line);
                    assert(out@.drop_last().push(line) == out@);
                    assert(find(t, seq![10u8]) is None);
                    assert(lines(t) == seq![t]);
                    assert(s@.subrange(s.len() as int, s.len() as int) =~= Seq::<u8>::empty());
                    assert(before + lines(t) =~= contents(out@) + lines(s@.subrange(s.len() as int, s.len() as int)));
                }
                pos = s.len();
            },
        }
    }
    assert(lines(s@.subrange(pos as int, s.len() as int)) =~= Seq::<Seq<u8>>::empty());
    assert(contents(out@) + Seq::<Seq<u8>>::empty() =~= contents(out@));
    out
}

proof fn lemma_digits_prefix(d: Seq<u8>, j: int)
    requires
        0 <= j <= d.len(),
        all_digits(d),
    ensures
        digits_value(d) >= digits_value(d.subrange(0, j)),
    decreases d.len(),
{
    if j < d.len() {
        assert(all_digits(d.drop_last()));
        assert(d.drop_last().subrange(0, j) =~= d.subrange(0, j));
        lemma_digits_prefix(d.drop_last(), j);
    } else {
        assert(d.subrange(0, j) =~= d);
    }
}

/// The number `usize::from_str` reads from `s`, if any.
pub fn parse_decimal(s: &[u8]) -> (r: Option<usize>)
    ensures
        match r {
            Some(v) => parse_usize(s@) == Some(v as nat),
            None => parse_usize(s@) is None,
        },
{
    let off: usize = if s.len() > 0 && s[0] == 43u8 { 1 } else { 0 };
    let ghost d = if s@.len() > 0 && s@[0] == 43u8 { s@.drop_first() } else { s@ };
    assert(d =~= s@.subrange(off as int, s.len() as int));
    if off == s.len() {
        return None;
    }
    let mut i = off;
    let mut acc: usize = 0;
    while i < s.len()
        invariant
            off <= i <= s.len(),
            d == s@.subrange(off as int, s.len() as int),
            d == (if s@.len() > 0 && s@[0] == 43u8 { s@.drop_first() } else { s@ }),
            d.len() > 0,
            all_digits(d.subrange(0, i - off)),
            acc == digits_value(d.subrange(0, i - off)),
        decreases s.len() - i,
    {
        let c = s[i];
        if c < 48 || c > 57 {
            assert(d[i - off] == c);
            assert(!all_digits(d));
            return None;
        }
        let dig = (c - 48) as usize;
        let ghost next = d.subrange(0, i - off + 1);
        assert(next.drop_last() =~= d.subrange(0, i - off));
        assert(next.last() == c);
        if acc > (usize::MAX - dig) / 10 {
            proof {
                assert(digits_value(next) > usize::MAX) by (nonlinear_arith)
                    requires
                        digits_value(next) == acc * 10 + dig,
                        acc > (usize::MAX - dig) / 10,
                        dig <= 9,
                ;
                if all_digits(d) {
                    lemma_digits_prefix(d, i - off + 1);
                    assert(digits_value(d) > usize::MAX);
                }
            }
            return None;
        }
        assert(acc * 10 + dig <= usize::MAX) by (nonlinear_arith)
            requires
                acc <= (usize::MAX - dig) / 10,
                dig <= 9,
        ;
        acc = acc * 10 + dig;
        i = i + 1;
    }
    assert(d.subrange(0, i - off) =~= d);
    Some(acc)
}

/// The value of a hexadecimal digit.
fn hex_digit_value(c: u8) -> (v: u8)
    requires
        is_hex_digit(c),
    ensures
        v == hex_value(c),
{
    if 48 <= c && c <= 57 {
        c - 48
    } else if 97 <= c && c <= 102 {
        c - 87
    } else {
        c - 55
    }
}

/// The key a line of the index lists, if it lists one.
pub fn parse_key_line(l: &[u8]) -> (r: Option<SourceKey>)
    ensures
        match r {
            Some(k) => key_line(l@) == Some(k@),
            None => key_line(l@) is None,
        },
{
    if l.len() != 64 {
        return None;
    }
    let mut i: usize = 0;
    while i < 64
        invariant
            i <= 64,
            l.len() == 64,
            forall|j: int| 0 <= j < i ==> is_hex_digit(#[trigger] l@[j]),
        decreases 64 - i,
    {
        let c = l[i];
        if !((48 <= c && c <= 57) || (97 <= c && c <= 102) || (65 <= c && c <= 70)) {
            return None;
        }
        i = i + 1;
    }
    let mut key: [u8; 32] = [0u8; 32];
    let mut k: usize = 0;
    while k < 32
        invariant
            k <= 32,
            l.len() == 64,
            forall|j: int| 0 <= j < 64 ==> is_hex_digit(#[trigger] l@[j]),
            key@.len() == 32,
            forall|j: int| 0 <= j < k ==> key@[j] == (16 * hex_value(l@[2 * j]) + hex_value(l@[2 * j + 1])) as u8,
        decreases 32 - k,
    {
        let hi = hex_digit_value(l[2 * k]);
        let lo = hex_digit_value(l[2 * k + 1]);
        key[k] = 16 * hi + lo;
        k = k + 1;
    }
    let r = SourceKey::from_digest(key);
    assert(r@ =~= Seq::new(32, |j: int| (16 * hex_value(l@[2 * j]) + hex_value(l@[2 * j + 1])) as u8));
    Some(r)
}

/// The contents of keys.
pub open spec fn key_views(v: Seq<SourceKey>) -> Seq<Seq<u8>> {
    Seq::new(v.len(), |i: int| v[i]@)
}

/// Reads a cache index (its first `MAX_INDEX_BYTES + 1` bytes at most) written for the archive
/// with `signature` and `sounds` sounds: the number of cached files it promises and their keys.
pub fn parse_index(data: &[u8], signature: &[u8], sounds: usize) -> (r: Option<(usize, Vec<SourceKey>)>)
    ensures
        match r {
            Some((expected, keys)) => index_entries(data@, signature@, sounds as nat) == Some(
                (expected as nat, key_views(keys@)),
            ),
            None => index_entries(data@, signature@, sounds as nat) is None,
        },
{
    if data.len() as u64 > MAX_INDEX_BYTES {
        return None;
    }
    if !is_utf8(data) {
        return None;
    }
    let ls = split_lines(data);
    if ls.len() == 0 {
        return None;
    }
    let ghost lsv = contents(ls@);
    assert(lsv[0] == ls@[0]@);
    let f = split_fields(ls[0].as_slice());
    let ghost fv = contents(f@);
    if f.len() != 4 {
        return None;
    }
    assert(fv[0] == f@[0]@ && fv[1] == f@[1]@ && fv[2] == f@[2]@ && fv[3] == f@[3]@);
    let tag: [u8; 9] = [66u8, 65u8, 76u8, 67u8, 65u8, 67u8, 72u8, 69u8, 49u8];
    assert(tag@ =~= index_tag());
    if !same_bytes(f[0].as_slice(), &tag) {
        return None;
    }
    if !same_bytes(f[1].as_slice(), signature) {
        return None;
    }
    match parse_decimal(f[2].as_slice()) {
        Some(n) => {
            if n != sounds {
                return None;
            }
        },
        None => {
            return None;
        },
    }
    let expected = match parse_decimal(f[3].as_slice()) {
        Some(e) => e,
        None => {
            return None;
        },
    };
    assert(header_ok(data@, signature@, sounds as nat, expected as nat));
    let mut keys: Vec<SourceKey> = Vec::new();
    let mut i: usize = 1;
    while i < ls.len()
        invariant
            1 <= i <= ls.len(),
            lsv == contents(ls@),
            header_ok(data@, signature@, sounds as nat, expected as nat),
            lsv == lines(data@),
            key_lines(lsv.subrange(1, i as int)) == Some(key_views(keys@)),
        decreases ls.len() - i,
    {
        let ghost prefix = lsv.subrange(1, i as int);
        let ghost next = lsv.subrange(1, i + 1);
        assert(next.drop_last() =~= prefix);
        assert(next.last() == ls@[i as int]@);
        match parse_key_line(ls[i].as_slice()) {
            Some(k) => {
                let ghost before = key_views(keys@);
                keys.push(k);
                assert(key_views(keys@) =~= before.push(k@));
            },
            None => {
                proof {
                    assert(lsv.skip(1)[i - 1] == lsv[i as int]);
                    lemma_key_lines_prefix(lsv.skip(1), i - 1);
                }
                return None;
            },
        }
        i = i + 1;
    }
    assert(lsv.subrange(1, ls.len() as int) =~= lsv.skip(1));
    if expected > sounds {
        return None;
    }
    Some((expected, keys))
}

/// Where some line lists no key, no prefix that holds it does either, nor the whole.
proof fn lemma_key_lines_prefix(ls: Seq<Seq<u8>>, j: int)
    requires
        0 <= j < ls.len(),
        key_line(ls[j]) is None,
    ensures
        key_lines(ls) is None,
        key_lines(ls.subrange(0, j + 1)) is None,
    decreases ls.len(),
{
    assert(ls.subrange(0, j + 1).drop_last() =~= ls.subrange(0, j));
    if j < ls.len() - 1 {
        assert(ls.drop_last()[j] == ls[j]);
        lemma_key_lines_prefix(ls.drop_last(), j);
    }
}

/// The sum of `sizes`.
pub open spec fn sum_sizes(sizes: Seq<u64>) -> int
    decreases sizes.len(),
{
    if sizes.len() == 0 {
        0
    } else {
        sum_sizes(sizes.drop_last()) + sizes.last()
    }
}

/// The summary of a reused cache whose listed files were all found with `sizes` bytes of
/// PCM data: `None` unless there are as many as the index promised.
pub fn summarize_index(expected: usize, sizes: &[u64]) -> (r: Option<CacheSummary>)
    requires
        sum_sizes(sizes@) <= u64::MAX,
    ensures
        r == if sizes.len() == expected {
            Some(CacheSummary { files: expected, bytes: sum_sizes(sizes@) as u64, reused: true })
        } else {
            None
        },
{
    let mut bytes: u64 = 0;
    let mut i: usize = 0;
    while i < sizes.len()
        invariant
            i <= sizes.len(),
            sum_sizes(sizes@) <= u64::MAX,
            bytes == sum_sizes(sizes@.subrange(0, i as int)),
        decreases sizes.len() - i,
    {
        assert(sizes@.subrange(0, i + 1).drop_last() =~= sizes@.subrange(0, i as int));
        proof {
            lemma_sum_prefix(sizes@, i + 1);
        }
        bytes = bytes + sizes[i];
        i = i + 1;
    }
    assert(sizes@.subrange(0, sizes.len() as int) =~= sizes@);
    if sizes.len() == expected {
        Some(CacheSummary { files: expected, bytes, reused: true })
    } else {
        None
    }
}

proof fn lemma_sum_prefix(s: Seq<u64>, j: int)
    requires
        0 <= j <= s.len(),
    ensures
        sum_sizes(s.subrange(0, j)) <= sum_sizes(s),
    decreases s.len(),
{
    if j < s.len() {
        assert(s.drop_last().subrange(0, j) =~= s.subrange(0, j));
        lemma_sum_prefix(s.drop_last(), j);
    } else {
        assert(s.subrange(0, j) =~= s);
    }
}

/// The decimal digits of `n`, as bytes.
pub open spec fn decimal_bytes(n: nat) -> Seq<u8>
    decreases n,
{
    if n < 10 {
        seq![(48 + n) as u8]
    } else {
        decimal_bytes(n / 10) + seq![(48 + n % 10) as u8]
    }
}

/// Appends the decimal digits of `n`.
fn push_decimal(out: &mut Vec<u8>, n: usize)
    ensures
        final(out)@ == old(out)@ + decimal_bytes(n as nat),
    decreases n,
{
    if n >= 10 {
        push_decimal(out, n / 10);
    }
    let ghost before = out@;
    out.push(48 + (n % 10) as u8);
    assert(out@ =~= old(out)@ + decimal_bytes(n as nat));
}

/// The key lines of an index: each key in hexadecimal and a newline.
pub open spec fn key_text(keys: Seq<Seq<u8>>) -> Seq<u8>
    decreases keys.len(),
{
    if keys.len() == 0 {
        Seq::empty()
    } else {
        key_text(keys.drop_last()) + hex(keys.last()) + seq![10u8]
    }
}

/// The cache index for the archive with `signature` and `sounds` sounds, listing `keys`.
pub open spec fn index_text_spec(signature: Seq<u8>, sounds: nat, keys: Seq<Seq<u8>>) -> Seq<u8> {
    index_tag() + seq![32u8] + signature + seq![32u8] + decimal_bytes(sounds) + seq![32u8] + decimal_bytes(
        keys.len(),
    ) + seq![10u8] + key_text(keys)
}

/// The text of the cache index: a header line with the format tag, the archive signature,
/// the number of sounds and the number of cached files, then one key per line.
pub fn index_text(signature: &[u8], sounds: usize, keys: &Vec<SourceKey>) -> (text: Vec<u8>)
    ensures
        text@ == index_text_spec(signature@, sounds as nat, key_views(keys@)),
{
    let mut text: Vec<u8> = Vec::new();
    let tag: [u8; 9] = [66u8, 65u8, 76u8, 67u8, 65u8, 67u8, 72u8, 69u8, 49u8];
    let mut i: usize = 0;
    while i < 9
        invariant
            i <= 9,
            tag@ == index_tag(),
            text@ == index_tag().subrange(0, i as int),
        decreases 9 - i,
    {
        text.push(tag[i]);
        assert(text@ =~= index_tag().subrange(0, i + 1));
        i = i + 1;
    }
    assert(index_tag().subrange(0, 9) =~= index_tag());
    text.push(32u8);
    let mut j: usize = 0;
    let ghost head = text@;
    while j < signature.len()
        invariant
            j <= signature.len(),
            text@ == head + signature@.subrange(0, j as int),
        decreases signature.len() - j,
    {
        text.push(signature[j]);
        assert(text@ =~= head + signature@.subrange(0, j + 1));
        j = j + 1;
    }
    assert(signature@.subrange(0, signature.len() as int) =~= signature@);
    text.push(32u8);
    push_decimal(&mut text, sounds);
    text.push(32u8);
    push_decimal(&mut text, keys.len());
    text.push(10u8);
    let ghost header = text@;
    let mut k: usize = 0;
    while k < keys.len()
        invariant
            k <= keys.len(),
            text@ == header + key_text(key_views(keys@).subrange(0, k as int)),
        decreases keys.len() - k,
    {
        let h = hex_bytes(&keys[k].bytes());
        let ghost before = text@;
        let mut m: usize = 0;
        while m < h.len()
            invariant
                m <= h.len(),
                text@ == before + h@.subrange(0, m as int),
            decreases h.len() - m,
        {
            text.push(h[m]);
            assert(text@ =~= before + h@.subrange(0, m + 1));
            m = m + 1;
        }
        assert(h@.subrange(0, h.len() as int) =~= h@);
        text.push(10u8);
        proof {
            let next = key_views(keys@).subrange(0, k + 1);
            assert(next.drop_last() =~= key_views(keys@).subrange(0, k as int));
            assert(next.last() == keys@[k as int]@);
            assert(text@ =~= header + key_text(next));
        }
        k = k + 1;
    }
    assert(key_views(keys@).subrange(0, keys.len() as int) =~= key_views(keys@));
    assert(text@ =~= index_signature_header(signature@, sounds as nat, keys.len() as nat) + key_text(key_views(keys@)));
    text
}

/// The header line of an index, with its newline.
pub open spec fn index_signature_header(signature: Seq<u8>, sounds: nat, files: nat) -> Seq<u8> {
    index_tag() + seq![32u8] + signature + seq![32u8] + decimal_bytes(sounds) + seq![32u8] + decimal_bytes(files)
        + seq![10u8]
}

/// An entry of the game archive, as far as sound selection reads it.
#[derive(Clone, Debug)]
pub struct ArchiveEntry {
    pub name: Vec<u8>,
    pub is_dir: bool,
    pub size: u64,
    pub crc32: u32,
}

/// Why the sounds of an archive cannot be prepared.
#[derive(Clone, Copy, Debug, PartialEq, Eq)]
pub enum SoundsError {
    /// The entry at this index is a sound over `MAX_SOURCE_BYTES`.
    TooLarge(usize),
    /// The archive has no sounds.
    NoAudio,
}

/// `resources/sounds/`.
pub open spec fn sounds_dir() -> Seq<u8> {
    seq![114u8, 101u8, 115u8, 111u8, 117u8, 114u8, 99u8, 101u8, 115u8, 47u8, 115u8, 111u8, 117u8, 110u8, 100u8, 115u8, 47u8]
}

/// `.ogg`.
pub open spec fn ogg_extension() -> Seq<u8> {
    seq![46u8, 111u8, 103u8, 103u8]
}

/// A sound file of the game: an Ogg file under `resources/sounds/`.
pub open spec fn is_sound(e: ArchiveEntry) -> bool {
    let n = e.name@;
    &&& !e.is_dir
    &&& n.len() >= sounds_dir().len() && n.subrange(0, sounds_dir().len() as int) == sounds_dir()
    &&& n.len() >= 4 && n.subrange(n.len() - 4, n.len() as int) == ogg_extension()
}

/// What a sound contributes to the archive signature: its name, a zero byte, its size and its
/// CRC-32, little-endian.
pub open spec fn sound_record(e: ArchiveEntry) -> Seq<u8> {
    e.name@ + seq![0u8] + crate::pcm::le_bytes(e.size as nat, 8) + crate::pcm::le_bytes(e.crc32 as nat, 4)
}

/// The indices of the sounds among `entries` and the bytes their signature digests, or the
/// index of the first sound that is too large.
pub open spec fn selected(entries: Seq<ArchiveEntry>) -> Result<(Seq<usize>, Seq<u8>), usize>
    decreases entries.len(),
{
    if entries.len() == 0 {
        Ok((Seq::empty(), Seq::empty()))
    } else {
        match selected(entries.drop_last()) {
            Err(i) => Err(i),
            Ok((idx, input)) => {
                let e = entries.last();
                if !is_sound(e) {
                    Ok((idx, input))
                } else if e.size > MAX_SOURCE_BYTES {
                    Err((entries.len() - 1) as usize)
                } else {
                    Ok((idx.push((entries.len() - 1) as usize), input + sound_record(e)))
                }
            },
        }
    }
}

/// Whether `s` ends with `suffix`.
fn ends_with_bytes(s: &[u8], suffix: &[u8]) -> (r: bool)
    ensures
        r == (s@.len() >= suffix@.len() && s@.subrange(s@.len() - suffix@.len(), s@.len() as int) == suffix@),
{
    if s.len() < suffix.len() {
        return false;
    }
    let tail = slice_bytes(s, s.len() - suffix.len(), s.len());
    same_bytes(tail.as_slice(), suffix)
}

/// The sounds of the game archive, by entry index, and the signature of the archive: the
/// SHA-256 digest, in hexadecimal, of each sound's name, a zero byte, size and CRC-32.
pub fn select_sounds(entries: &Vec<ArchiveEntry>) -> (r: Result<(Vec<usize>, Vec<u8>), SoundsError>)
    ensures
        match selected(entries@) {
            Err(i) => r == Err::<(Vec<usize>, Vec<u8>), SoundsError>(SoundsError::TooLarge(i)),
            Ok((idx, input)) => if idx.len() == 0 {
                r == Err::<(Vec<usize>, Vec<u8>), SoundsError>(SoundsError::NoAudio)
            } else {
                r matches Ok((v, sig)) && v@ == idx && sig@ == hex(crate::pcm::sha256(input))
            },
        },
{
    let dir: [u8; 17] = [114u8, 101u8, 115u8, 111u8, 117u8, 114u8, 99u8, 101u8, 115u8, 47u8, 115u8, 111u8, 117u8, 110u8, 100u8, 115u8, 47u8];
    let ext: [u8; 4] = [46u8, 111u8, 103u8, 103u8];
    assert(dir@ =~= sounds_dir());
    assert(ext@ =~= ogg_extension());
    let mut idx: Vec<usize> = Vec::new();
    let mut input: Vec<u8> = Vec::new();
    let mut i: usize = 0;
    while i < entries.len()
        invariant
            i <= entries.len(),
            dir@ == sounds_dir(),
            ext@ == ogg_extension(),
            selected(entries@.subrange(0, i as int)) == Ok::<(Seq<usize>, Seq<u8>), usize>((idx@, input@)),
        decreases entries.len() - i,
    {
        let e = &entries[i];
        let ghost prefix = entries@.subrange(0, i + 1);
        assert(prefix.drop_last() =~= entries@.subrange(0, i as int));
        assert(prefix.last() == *e);
        let sound = !e.is_dir && crate::text::starts_with_bytes(e.name.as_slice(), &dir) && ends_with_bytes(e.name.as_slice(), &ext);
        proof {
            if e.name@.len() >= sounds_dir().len() {
                assert(crate::text::occurs_at(e.name@, sounds_dir(), 0) == (e.name@.subrange(0, sounds_dir().len() as int) == sounds_dir()));
            }
        }
        if sound {
            if e.size > MAX_SOURCE_BYTES {
                proof {
                    lemma_selected_err(entries@, i as int);
                }
                return Err(SoundsError::TooLarge(i));
            }
            idx.push(i);
            let ghost before = input@;
            let mut k: usize = 0;
            while k < e.name.len()
                invariant
                    k <= e.name.len(),
                    input@ == before + e.name@.subrange(0, k as int),
                decreases e.name.len() - k,
            {
                input.push(e.name[k]);
                assert(input@ =~= before + e.name@.subrange(0, k + 1));
                k = k + 1;
            }
            assert(e.name@.subrange(0, e.name.len() as int) =~= e.name@);
            input.push(0u8);
            crate::pcm::push_le(&mut input, e.size, 8);
            crate::pcm::push_le(&mut input, e.crc32 as u64, 4);
            assert(input@ =~= before + sound_record(*e));
        }
        i = i + 1;
    }
    assert(entries@.subrange(0, entries.len() as int) =~= entries@);
    if idx.len() == 0 {
        return Err(SoundsError::NoAudio);
    }
    let digest = crate::pcm::sha256_digest(input.as_slice());
    Ok((idx, hex_bytes(&digest)))
}

/// A too-large sound in a prefix is what selection reports for the whole.
proof fn lemma_selected_err(entries: Seq<ArchiveEntry>, i: int)
    requires
        0 <= i < entries.len(),
        selected(entries.subrange(0, i + 1)) == Err::<(Seq<usize>, Seq<u8>), usize>(i as usize),
    ensures
        selected(entries) == Err::<(Seq<usize>, Seq<u8>), usize>(i as usize),
    decreases entries.len(),
{
    if i + 1 < entries.len() {
        assert(entries.drop_last().subrange(0, i + 1) =~= entries.subrange(0, i + 1));
        lemma_selected_err(entries.drop_last(), i);
    } else {
        assert(entries.subrange(0, i + 1) =~= entries);
    }
}

/// Bytes that are hexadecimal digits as `hex` writes them.
pub open spec fn lower_hex(s: Seq<u8>) -> bool {
    forall|i: int| 0 <= i < s.len() ==> (48 <= #[trigger] s[i] <= 57) || (97 <= s[i] <= 102)
}

proof fn lemma_ascii_valid(s: Seq<u8>)
    requires
        forall|i: int| 0 <= i < s.len() ==> #[trigger] s[i] < 128,
    ensures
        valid_utf8(s),
{
    assert(s.subrange(0, 0) =~= Seq::<u8>::empty());
    assert(valid_utf8(Seq::<u8>::empty()));
    assert(partial_valid_utf8(s, 0));
    assert forall|i: int| 0 <= 0 <= i < s.len() <= s.len() implies #[trigger] is_leading_byte_width_1(s[i]) by {}
    partial_valid_utf8_extend_ascii_block(s, 0, s.len() as int);
    assert(s.subrange(0, s.len() as int) =~= s);
}

proof fn lemma_find_newline(s: Seq<u8>, k: int, i: int)
    requires
        0 <= i <= k < s.len(),
        s[k] == 10u8,
        forall|j: int| 0 <= j < k ==> s[j] != 10u8,
    ensures
        find_from(s, seq![10u8], i) == Some(k),
    decreases k - i,
{
    if i < k {
        assert(s.subrange(i, i + 1) != seq![10u8]) by {
            assert(s.subrange(i, i + 1)[0] == s[i]);
        }
        lemma_find_newline(s, k, i + 1);
    } else {
        assert(s.subrange(i, i + 1) =~= seq![10u8]);
    }
}

/// A line without newlines, followed by a newline, is the first line.
proof fn lemma_lines_head(h: Seq<u8>, rest: Seq<u8>)
    requires
        forall|j: int| 0 <= j < h.len() ==> #[trigger] h[j] != 10u8,
        h.len() == 0 || h.last() != 13u8,
    ensures
        lines(h + seq![10u8] + rest) == seq![h] + lines(rest),
{
    let s = h + seq![10u8] + rest;
    lemma_find_newline(s, h.len() as int, 0);
    assert(s.subrange(0, h.len() as int) =~= h);
    assert(s.subrange(h.len() as int + 1, s.len() as int) =~= rest);
}

proof fn lemma_key_text_front(keys: Seq<Seq<u8>>)
    requires
        keys.len() > 0,
    ensures
        key_text(keys) == hex(keys[0]) + seq![10u8] + key_text(keys.drop_first()),
    decreases keys.len(),
{
    if keys.len() == 1 {
        assert(keys.drop_last() =~= Seq::<Seq<u8>>::empty());
        assert(keys.drop_first() =~= Seq::<Seq<u8>>::empty());
        assert(key_text(keys) =~= hex(keys[0]) + seq![10u8] + key_text(keys.drop_first()));
    } else {
        lemma_key_text_front(keys.drop_last());
        assert(keys.drop_last().drop_first() =~= keys.drop_first().drop_last());
        assert(keys.drop_first().last() == keys.last());
        assert(key_text(keys) =~= hex(keys[0]) + seq![10u8] + key_text(keys.drop_first()));
    }
}

/// `hex` writes two lower-case digits per byte.
pub proof fn lemma_hex(k: Seq<u8>)
    ensures
        hex(k).len() == 2 * k.len(),
        forall|i: int| 0 <= i < k.len() ==> #[trigger] hex(k)[2 * i] == crate::pcm::hex_digit(k[i] as int / 16) && hex(k)[2
            * i + 1] == crate::pcm::hex_digit(k[i] as int % 16),
        lower_hex(hex(k)),
    decreases k.len(),
{
    if k.len() > 0 {
        let init = k.drop_last();
        lemma_hex(init);
        let h = hex(k);
        assert(h == hex(init) + seq![crate::pcm::hex_digit(k.last() as int / 16), crate::pcm::hex_digit(k.last() as int % 16)]);
        assert forall|i: int| 0 <= i < k.len() implies #[trigger] hex(k)[2 * i] == crate::pcm::hex_digit(k[i] as int / 16)
            && hex(k)[2 * i + 1] == crate::pcm::hex_digit(k[i] as int % 16) by {
            if i < k.len() - 1 {
                assert(init[i] == k[i]);
                assert(h[2 * i] == hex(init)[2 * i]);
                assert(h[2 * i + 1] == hex(init)[2 * i + 1]);
            }
        }
        assert forall|i: int| 0 <= i < h.len() implies (48 <= #[trigger] h[i] <= 57) || (97 <= h[i] <= 102) by {
            if i < hex(init).len() {
                assert(h[i] == hex(init)[i]);
            }
        }
    }
}

proof fn lemma_key_line_hex(k: Seq<u8>)
    requires
        k.len() == 32,
    ensures
        key_line(hex(k)) == Some(k),
{
    lemma_hex(k);
    let h = hex(k);
    assert forall|i: int| 0 <= i < 64 implies is_hex_digit(#[trigger] h[i]) by {}
    let decoded = Seq::new(32, |j: int| (16 * hex_value(h[2 * j]) + hex_value(h[2 * j + 1])) as u8);
    assert forall|j: int| 0 <= j < 32 implies decoded[j] == k[j] by {
        assert(h[2 * j] == crate::pcm::hex_digit(k[j] as int / 16));
        assert(h[2 * j + 1] == crate::pcm::hex_digit(k[j] as int % 16));
        assert(k[j] == 16 * (k[j] / 16) + k[j] % 16);
    }
    assert(decoded =~= k);
}

proof fn lemma_key_lines_hex(keys: Seq<Seq<u8>>)
    requires
        forall|i: int| 0 <= i < keys.len() ==> (#[trigger] keys[i]).len() == 32,
    ensures
        key_lines(Seq::new(keys.len(), |i: int| hex(keys[i]))) == Some(keys),
    decreases keys.len(),
{
    if keys.len() > 0 {
        let ls = Seq::new(keys.len(), |i: int| hex(keys[i]));
        lemma_key_lines_hex(keys.drop_last());
        assert(ls.drop_last() =~= Seq::new(keys.drop_last().len(), |i: int| hex(keys.drop_last()[i])));
        lemma_key_line_hex(keys.last());
        assert(keys.drop_last().push(keys.last()) =~= keys);
    }
}

proof fn lemma_lines_of_keys(keys: Seq<Seq<u8>>)
    requires
        forall|i: int| 0 <= i < keys.len() ==> (#[trigger] keys[i]).len() == 32,
    ensures
        lines(key_text(keys)) == Seq::new(keys.len(), |i: int| hex(keys[i])),
    decreases keys.len(),
{
    if keys.len() == 0 {
        assert(lines(key_text(keys)) =~= Seq::new(keys.len(), |i: int| hex(keys[i])));
    } else {
        lemma_key_text_front(keys);
        let h = hex(keys[0]);
        lemma_hex(keys[0]);
        assert forall|j: int| 0 <= j < h.len() implies #[trigger] h[j] != 10u8 by {}
        lemma_lines_head(h, key_text(keys.drop_first()));
        lemma_lines_of_keys(keys.drop_first());
        assert(lines(key_text(keys)) =~= Seq::new(keys.len(), |i: int| hex(keys[i])));
    }
}

proof fn lemma_decimal(n: nat)
    ensures
        decimal_bytes(n).len() > 0,
        all_digits(decimal_bytes(n)),
        digits_value(decimal_bytes(n)) == n,
        decimal_bytes(n)[0] != 43u8,
        decimal_bytes(n).last() != 13u8,
    decreases n,
{
    if n >= 10 {
        lemma_decimal(n / 10);
        let d = decimal_bytes(n);
        assert(d.drop_last() =~= decimal_bytes(n / 10));
        assert(d[0] == decimal_bytes(n / 10)[0]);
        assert forall|i: int| 0 <= i < d.len() implies 48 <= #[trigger] d[i] <= 57 by {
            if i < d.len() - 1 {
                assert(d[i] == decimal_bytes(n / 10)[i]);
            }
        }
        assert(n == (n / 10) * 10 + n % 10) by (nonlinear_arith);
        assert(d.last() == (48 + n % 10) as u8);
        assert((d.last() - 48) as nat == n % 10);
        assert(digits_value(d) == digits_value(decimal_bytes(n / 10)) * 10 + (d.last() - 48) as nat);
    } else {
        let d = decimal_bytes(n);
        assert(d.drop_last() =~= Seq::<u8>::empty());
        assert(d.last() == (48 + n) as u8);
        assert(digits_value(d) == digits_value(d.drop_last()) * 10 + (d.last() - 48) as nat);
    }
}

proof fn lemma_parse_decimal(n: nat)
    requires
        n <= usize::MAX,
    ensures
        parse_usize(decimal_bytes(n)) == Some(n),
{
    lemma_decimal(n);
}

/// A stretch of bytes without white space belongs to the field it starts or continues.
proof fn lemma_word(s: Seq<u8>, i: int, j: int, start: int)
    requires
        0 <= i < j <= s.len(),
        forall|k: int| i <= k < j ==> ws_len(s, k) == 0,
        start < i,
    ensures
        fields_from(s, i, start) == fields_from(s, j, if start >= 0 { start } else { i }),
    decreases j - i,
{
    if i + 1 < j {
        lemma_word(s, i + 1, j, if start >= 0 { start } else { i });
    }
}

/// No byte of `w` begins a white-space character.
pub open spec fn no_space(w: Seq<u8>) -> bool {
    forall|k: int|
        0 <= k < w.len() ==> !(9 <= #[trigger] w[k] <= 13) && w[k] != 32 && w[k] != 0xc2 && w[k] != 0xe1 && w[k]
            != 0xe2 && w[k] != 0xe3
}

/// Words separated by single spaces are the fields.
proof fn lemma_fields_words(words: Seq<Seq<u8>>, s: Seq<u8>)
    requires
        words.len() > 0,
        forall|i: int| 0 <= i < words.len() ==> (#[trigger] words[i]).len() > 0 && no_space(words[i]),
        s == join_words(words),
    ensures
        fields_from(s, 0, -1) == words,
    decreases words.len(),
{
    let w = words[0];
    if words.len() == 1 {
        assert(s == w);
        assert forall|k: int| 0 <= k < s.len() implies ws_len(s, k) == 0 by {
            assert(s[k] == w[k]);
        }
        lemma_word(s, 0, s.len() as int, -1);
        assert(s.subrange(0, s.len() as int) =~= s);
        assert(fields_from(s, 0, -1) =~= words);
    } else {
        let rest = join_words(words.drop_first());
        lemma_join_front(words);
        assert(s == w + seq![32u8] + rest);
        assert forall|k: int| 0 <= k < w.len() implies ws_len(s, k) == 0 by {
            assert(s[k] == w[k]);
        }
        lemma_word(s, 0, w.len() as int, -1);
        assert(ws_len(s, w.len() as int) == 1);
        assert(s.subrange(0, w.len() as int) =~= w);
        lemma_fields_words(words.drop_first(), rest);
        assert(s.subrange(w.len() as int + 1, s.len() as int) =~= rest);
        lemma_fields_suffix(s, w.len() as int + 1, rest);
        assert(fields_from(s, 0, -1) =~= seq![w] + words.drop_first());
        assert(seq![w] + words.drop_first() =~= words);
    }
}

/// Words joined by single spaces.
pub open spec fn join_words(words: Seq<Seq<u8>>) -> Seq<u8>
    decreases words.len(),
{
    if words.len() <= 1 {
        if words.len() == 1 {
            words[0]
        } else {
            Seq::empty()
        }
    } else {
        join_words(words.drop_last()) + seq![32u8] + words.last()
    }
}

proof fn lemma_join_front(words: Seq<Seq<u8>>)
    requires
        words.len() > 1,
    ensures
        join_words(words) == words[0] + seq![32u8] + join_words(words.drop_first()),
    decreases words.len(),
{
    if words.len() == 2 {
        assert(words.drop_last() =~= seq![words[0]]);
        assert(words.drop_first() =~= seq![words[1]]);
        assert(join_words(words.drop_last()) == words[0]);
        assert(join_words(words.drop_first()) == words[1]);
    } else {
        lemma_join_front(words.drop_last());
        assert(words.drop_last().drop_first() =~= words.drop_first().drop_last());
        assert(words.drop_first().last() == words.last());
        assert(join_words(words) =~= words[0] + seq![32u8] + join_words(words.drop_first()));
    }
}

/// Fields scanned from a position where none is open are the fields of the rest.
proof fn lemma_fields_suffix(s: Seq<u8>, i: int, rest: Seq<u8>)
    requires
        0 <= i <= s.len(),
        rest == s.subrange(i, s.len() as int),
    ensures
        fields_from(s, i, -1) == fields_from(rest, 0, -1),
{
    lemma_fields_shift(s, i, i, -1);
}

proof fn lemma_fields_shift(s: Seq<u8>, off: int, i: int, start: int)
    requires
        0 <= off <= i <= s.len(),
        start < 0 || off <= start <= i,
    ensures
        fields_from(s, i, start) == fields_from(s.subrange(off, s.len() as int), i - off, if start >= 0 {
            start - off
        } else {
            -1
        }),
    decreases s.len() - i,
{
    let t = s.subrange(off, s.len() as int);
    if i < s.len() {
        assert(byte_at(s, i) == byte_at(t, i - off));
        assert(byte_at(s, i + 1) == byte_at(t, i - off + 1));
        assert(byte_at(s, i + 2) == byte_at(t, i - off + 2));
        assert(ws_len(s, i) == ws_len(t, i - off));
        if ws_len(s, i) > 0 {
            if start >= 0 {
                assert(s.subrange(start, i) =~= t.subrange(start - off, i - off));
            }
            lemma_fields_shift(s, off, i + ws_len(s, i), -1);
        } else {
            lemma_fields_shift(s, off, i + 1, if start >= 0 { start } else { i });
        }
    } else {
        if start >= 0 {
            assert(s.subrange(start, s.len() as int) =~= t.subrange(start - off, t.len() as int));
        }
    }
}

/// What `index_text` writes, read back as the same archive, gives back the keys it lists.
pub proof fn law_index_round_trip(signature: Seq<u8>, sounds: nat, keys: Seq<Seq<u8>>)
    requires
        signature.len() > 0,
        lower_hex(signature),
        keys.len() <= sounds <= usize::MAX,
        forall|i: int| 0 <= i < keys.len() ==> (#[trigger] keys[i]).len() == 32,
        index_text_spec(signature, sounds, keys).len() <= MAX_INDEX_BYTES,
    ensures
        index_entries(index_text_spec(signature, sounds, keys), signature, sounds) == Some((keys.len(), keys)),
{
    let d1 = decimal_bytes(sounds);
    let d2 = decimal_bytes(keys.len());
    lemma_decimal(sounds);
    lemma_decimal(keys.len());
    let words = seq![index_tag(), signature, d1, d2];
    let hl = join_words(words);
    let w2 = seq![index_tag(), signature];
    assert(w2.drop_last() =~= seq![index_tag()]);
    assert(join_words(w2.drop_last()) == index_tag());
    assert(join_words(w2) =~= index_tag() + seq![32u8] + signature);
    let w3 = seq![index_tag(), signature, d1];
    assert(w3.drop_last() =~= w2);
    assert(join_words(w3) =~= index_tag() + seq![32u8] + signature + seq![32u8] + d1);
    assert(words.drop_last() =~= w3);
    assert(hl =~= index_tag() + seq![32u8] + signature + seq![32u8] + d1 + seq![32u8] + d2);
    let text = index_text_spec(signature, sounds, keys);
    assert(text =~= hl + seq![10u8] + key_text(keys));
    assert forall|i: int| 0 <= i < words.len() implies (#[trigger] words[i]).len() > 0 && no_space(words[i]) by {
        if i == 1 {
            assert forall|k: int| 0 <= k < signature.len() implies !(9 <= #[trigger] signature[k] <= 13) by {}
        }
    }
    lemma_fields_words(words, hl);
    assert(hl.last() == d2.last());
    assert forall|j: int| 0 <= j < hl.len() implies #[trigger] hl[j] != 10u8 by {
        if j < 9 {
        } else if j == 9 {
        } else if j < 10 + signature.len() {
            assert(hl[j] == signature[j - 10]);
        } else if j == 10 + signature.len() {
        } else if j < 11 + signature.len() + d1.len() {
            assert(hl[j] == d1[j - 11 - signature.len()]);
        } else if j == 11 + signature.len() + d1.len() {
        } else {
            assert(hl[j] == d2[j - 12 - signature.len() - d1.len()]);
        }
    }
    lemma_lines_head(hl, key_text(keys));
    lemma_lines_of_keys(keys);
    let ls = lines(text);
    assert(ls[0] == hl);
    assert(ls.skip(1) =~= Seq::new(keys.len(), |i: int| hex(keys[i])));
    lemma_key_lines_hex(keys);
    lemma_parse_decimal(sounds);
    lemma_parse_decimal(keys.len());
    assert forall|i: int| 0 <= i < text.len() implies #[trigger] text[i] < 128 by {
        lemma_text_ascii(signature, sounds, keys, i);
    }
    lemma_ascii_valid(text);
}

proof fn lemma_key_text_ascii(keys: Seq<Seq<u8>>, i: int)
    requires
        0 <= i < key_text(keys).len(),
    ensures
        key_text(keys)[i] < 128,
    decreases keys.len(),
{
    if keys.len() > 0 {
        let prev = key_text(keys.drop_last());
        let h = hex(keys.last());
        lemma_hex(keys.last());
        if i < prev.len() {
            lemma_key_text_ascii(keys.drop_last(), i);
        } else if i < prev.len() + h.len() {
            assert(key_text(keys)[i] == h[i - prev.len()]);
        }
    }
}

proof fn lemma_text_ascii(signature: Seq<u8>, sounds: nat, keys: Seq<Seq<u8>>, i: int)
    requires
        lower_hex(signature),
        0 <= i < index_text_spec(signature, sounds, keys).len(),
    ensures
        index_text_spec(signature, sounds, keys)[i] < 128,
{
    let d1 = decimal_bytes(sounds);
    let d2 = decimal_bytes(keys.len());
    lemma_decimal(sounds);
    lemma_decimal(keys.len());
    let text = index_text_spec(signature, sounds, keys);
    let n = 9 + 1 + signature.len() + 1 + d1.len() + 1 + d2.len() + 1;
    if i < n {
        if 10 <= i < 10 + signature.len() {
            assert(text[i] == signature[i - 10]);
        } else if 11 + signature.len() <= i < 11 + signature.len() + d1.len() {
            assert(text[i] == d1[i - 11 - signature.len()]);
        } else if 12 + signature.len() + d1.len() <= i < 12 + signature.len() + d1.len() + d2.len() {
            assert(text[i] == d2[i - 12 - signature.len() - d1.len()]);
        }
    } else {
        assert(text[i] == key_text(keys)[i - n]);
        lemma_key_text_ascii(keys, i - n);
    }
}

proof fn lemma_le_bytes_injective(x: nat, y: nat, n: nat)
    requires
        x < crate::pcm::pow256(n),
        y < crate::pcm::pow256(n),
        crate::pcm::le_bytes(x, n) == crate::pcm::le_bytes(y, n),
    ensures
        x == y,
{
    crate::pcm::lemma_le_round_trip(x, n);
    crate::pcm::lemma_le_round_trip(y, n);
}

proof fn lemma_same_prefix_entries(a: Seq<ArchiveEntry>, b: Seq<ArchiveEntry>)
    requires
        a == b,
    ensures
        selected(a) == selected(b),
{
}

/// Each sound's size and CRC-32 are part of the archive signature: two archives that differ
/// only in the size or the CRC-32 of one sound (within `MAX_SOURCE_BYTES` in both) select the
/// same sounds, and the bytes their signatures digest differ.
pub proof fn law_sound_size_and_crc_are_signed(a: Seq<ArchiveEntry>, b: Seq<ArchiveEntry>, i: int)
    requires
        a.len() == b.len(),
        0 <= i < a.len(),
        forall|k: int| 0 <= k < a.len() && k != i ==> a[k] == b[k],
        a[i].name@ == b[i].name@,
        a[i].is_dir == b[i].is_dir,
        a[i].size != b[i].size || a[i].crc32 != b[i].crc32,
        a[i].size <= MAX_SOURCE_BYTES,
        b[i].size <= MAX_SOURCE_BYTES,
        is_sound(a[i]),
    ensures
        match (selected(a), selected(b)) {
            (Ok((ia, xa)), Ok((ib, xb))) => ia == ib && xa.len() == xb.len() && xa != xb,
            (Err(p), Err(q)) => p == q,
            _ => false,
        },
    decreases a.len(),
{
    let a0 = a.drop_last();
    let b0 = b.drop_last();
    if i == a.len() - 1 {
        assert(a0 =~= b0);
        lemma_same_prefix_entries(a0, b0);
        assert(is_sound(b[i]));
        if let Ok((idx, input)) = selected(a0) {
            let ra = sound_record(a[i]);
            let rb = sound_record(b[i]);
            let n: int = a[i].name@.len() as int;
            crate::pcm::lemma_le_bytes_len(a[i].size as nat, 8);
            crate::pcm::lemma_le_bytes_len(b[i].size as nat, 8);
            crate::pcm::lemma_le_bytes_len(a[i].crc32 as nat, 4);
            crate::pcm::lemma_le_bytes_len(b[i].crc32 as nat, 4);
            assert(ra.len() == rb.len());
            if input + ra == input + rb {
                assert(ra =~= (input + ra).subrange(input.len() as int, (input + ra).len() as int));
                assert(rb =~= (input + rb).subrange(input.len() as int, (input + rb).len() as int));
                assert(crate::pcm::le_bytes(a[i].size as nat, 8) =~= ra.subrange(n + 1, n + 9));
                assert(crate::pcm::le_bytes(b[i].size as nat, 8) =~= rb.subrange(n + 1, n + 9));
                assert(crate::pcm::le_bytes(a[i].crc32 as nat, 4) =~= ra.subrange(n + 9, n + 13));
                assert(crate::pcm::le_bytes(b[i].crc32 as nat, 4) =~= rb.subrange(n + 9, n + 13));
                crate::pcm::lemma_pow256_small();
                lemma_le_bytes_injective(a[i].size as nat, b[i].size as nat, 8);
                lemma_le_bytes_injective(a[i].crc32 as nat, b[i].crc32 as nat, 4);
            }
        }
    } else {
        law_sound_size_and_crc_are_signed(a0, b0, i);
        assert(a.last() == b.last());
        match (selected(a0), selected(b0)) {
            (Ok((ia, xa)), Ok((ib, xb))) => {
                let r = sound_record(a.last());
                if xa + r == xb + r {
                    assert(xa =~= (xa + r).subrange(0, xa.len() as int));
                    assert(xb =~= (xb + r).subrange(0, xb.len() as int));
                }
            },
            _ => {},
        }
    }
}

} // verus!
