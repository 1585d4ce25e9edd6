use vstd::prelude::*;
use vstd::string::*;

use crate::prepare::{contents, fields, lines, split_fields, split_lines};
use crate::text::{contains, contains_bytes, find, find_bytes, lemma_find_bound, same_bytes, slice_bytes};

verus! {

/// Code addresses fall into buckets of `1 << BUCKET_SHIFT` bytes.
pub const BUCKET_SHIFT: usize = 5;

/// Buckets the sampler counts.
pub const BUCKETS: usize = 262_144;

/// Which thread the sampler is asked to profile, seen from a thread named `name`.
#[derive(Clone, Copy, Debug, PartialEq, Eq)]
pub enum ThreadChoice {
    /// The setting names neither thread that can be profiled.
    Invalid,
    /// Another thread is profiled.
    Other,
    /// This thread is profiled.
    This,
}

/// `raster`.
pub open spec fn raster_name() -> Seq<u8> {
    "raster".spec_bytes()
}

/// `main`.
pub open spec fn main_name() -> Seq<u8> {
    "main".spec_bytes()
}

/// The choice that `selected` (the raster thread where unset) makes for thread `name`.
pub open spec fn thread_choice(selected: Option<Seq<u8>>, name: Seq<u8>) -> ThreadChoice {
    let s = match selected {
        Some(s) => s,
        None => raster_name(),
    };
    if s != raster_name() && s != main_name() {
        ThreadChoice::Invalid
    } else if s != name {
        ThreadChoice::Other
    } else {
        ThreadChoice::This
    }
}

/// Whether the thread named `name` is the one to profile.
pub fn choose_thread(selected: Option<&str>, name: &str) -> (c: ThreadChoice)
    ensures
        c == thread_choice(
            match selected {
                Some(s) => Some(s.spec_bytes()),
                None => None,
            },
            name.spec_bytes(),
        ),
{
    let s = match selected {
        Some(s) => s.as_bytes(),
        None => "raster".as_bytes(),
    };
    if !same_bytes(s, "raster".as_bytes()) && !same_bytes(s, "main".as_bytes()) {
        return ThreadChoice::Invalid;
    }
    if !same_bytes(s, name.as_bytes()) {
        return ThreadChoice::Other;
    }
    ThreadChoice::This
}

/// Why the executable's code mapping cannot be sampled.
#[derive(Clone, Copy, Debug, PartialEq, Eq)]
pub enum MapsError {
    /// No executable mapping of the program is listed.
    NotFound,
    /// The mapping's address range does not read.
    InvalidRange,
    /// An address is not a hexadecimal number that fits.
    InvalidAddress,
    /// The code is larger than the buckets cover.
    TooLarge,
}

/// `r-xp`.
pub open spec fn executable_perms() -> Seq<u8> {
    seq![114u8, 45u8, 120u8, 112u8]
}

/// Whether `s` ends with `suffix`.
pub open spec fn ends_with(s: Seq<u8>, suffix: Seq<u8>) -> bool {
    s.len() >= suffix.len() && s.subrange(s.len() - suffix.len(), s.len() as int) == suffix
}

/// The program's executable mapping is this line.
pub open spec fn is_code_mapping(line: Seq<u8>, exe: Seq<u8>) -> bool {
    contains(line, executable_perms()) && ends_with(line, exe)
}

/// The first line from `i` on that maps the program's code.
pub open spec fn code_mapping_from(ls: Seq<Seq<u8>>, exe: Seq<u8>, i: int) -> Option<Seq<u8>>
    decreases ls.len() - i,
{
    if i < 0 || i >= ls.len() {
        None
    } else if is_code_mapping(ls[i], exe) {
        Some(ls[i])
    } else {
        code_mapping_from(ls, exe, i + 1)
    }
}

pub open spec fn hex_digit_value(c: u8) -> int {
    if 48 <= c <= 57 {
        c - 48
    } else if 97 <= c <= 102 {
        c - 87
    } else if 65 <= c <= 70 {
        c - 55
    } else {
        -1
    }
}

/// The number written by hexadecimal digits.
pub open spec fn hex_value(d: Seq<u8>) -> nat
    decreases d.len(),
{
    if d.len() == 0 {
        0
    } else {
        hex_value(d.drop_last()) * 16 + hex_digit_value(d.last()) as nat
    }
}

pub open spec fn all_hex(d: Seq<u8>) -> bool {
    forall|i: int| 0 <= i < d.len() ==> hex_digit_value(#[trigger] d[i]) >= 0
}

/// The number `usize::from_str_radix(s, 16)` reads: hexadecimal digits after an optional `+`.
pub open spec fn parse_hex(s: Seq<u8>) -> Option<nat> {
    let d = if s.len() > 0 && s[0] == 43u8 {
        s.drop_first()
    } else {
        s
    };
    if d.len() == 0 || !all_hex(d) || hex_value(d) > usize::MAX {
        None
    } else {
        Some(hex_value(d))
    }
}

/// The address range of the program's code, as `/proc/self/maps` lists it, or why it cannot
/// be sampled.
pub open spec fn code_range(maps: Seq<u8>, exe: Seq<u8>) -> Result<(nat, nat), MapsError> {
    match code_mapping_from(lines(maps), exe, 0) {
        None => Err(MapsError::NotFound),
        Some(line) => {
            let f = fields(line);
            let range = if f.len() > 0 {
                f[0]
            } else {
                Seq::empty()
            };
            match find(range, seq![45u8]) {
                None => Err(MapsError::InvalidRange),
                Some(p) => match (parse_hex(range.subrange(0, p)), parse_hex(range.subrange(p + 1, range.len() as int))) {
                    (Some(start), Some(end)) => if end - start > BUCKETS * 32 {
                        Err(MapsError::TooLarge)
                    } else {
                        Ok((start, end))
                    },
                    _ => Err(MapsError::InvalidAddress),
                },
            }
        },
    }
}

proof fn lemma_hex_prefix(d: Seq<u8>, j: int)
    requires
        0 <= j <= d.len(),
        forall|i: int| 0 <= i < d.len() ==> hex_digit_value(#[trigger] d[i]) >= 0,
    ensures
        hex_value(d) >= hex_value(d.subrange(0, j)),
    decreases d.len(),
{
    if j < d.len() {
        assert(d.drop_last().subrange(0, j) =~= d.subrange(0, j));
        assert forall|i: int| 0 <= i < d.drop_last().len() implies hex_digit_value(#[trigger] d.drop_last()[i]) >= 0 by {
            assert(d.drop_last()[i] == d[i]);
        }
        lemma_hex_prefix(d.drop_last(), j);
    } else {
        assert(d.subrange(0, j) =~= d);
    }
}

/// The number `usize::from_str_radix(s, 16)` reads, if any.
pub fn parse_hex_usize(s: &[u8]) -> (r: Option<usize>)
    ensures
        match r {
            Some(v) => parse_hex(s@) == Some(v as nat),
            None => parse_hex(s@) is None,
        },
{
    let off: usize = if s.len() > 0 && s[0] == 43u8 { 1 } else { 0 };
    let ghost d = if s@.len() > 0 && s@[0] == 43u8 { s@.drop_first() } else { s@ };
    assert(d =~= s@.subrange(off as int, s.len() as int));
    if off == s.len() {
        return None;
    }
    let mut i = off;
    let mut acc: usize = 0;
    while i < s.len()
        invariant
            off <= i <= s.len(),
            d == s@.subrange(off as int, s.len() as int),
            d == (if s@.len() > 0 && s@[0] == 43u8 { s@.drop_first() } else { s@ }),
            d.len() > 0,
            forall|k: int| 0 <= k < i - off ==> hex_digit_value(#[trigger] d[k]) >= 0,
            acc == hex_value(d.subrange(0, i - off)),
        decreases s.len() - i,
    {
        let c = s[i];
        let v: usize = if 48 <= c && c <= 57 {
            (c - 48) as usize
        } else if 97 <= c && c <= 102 {
            (c - 87) as usize
        } else if 65 <= c && c <= 70 {
            (c - 55) as usize
        } else {
            assert(d[i - off] == c);
            assert(hex_digit_value(d[i - off]) < 0);
            assert(exists|k: int| 0 <= k < d.len() && hex_digit_value(#[trigger] d[k]) < 0);
            return None;
        };
        let ghost next = d.subrange(0, i - off + 1);
        assert(next.drop_last() =~= d.subrange(0, i - off));
        assert(next.last() == c);
        if acc > (usize::MAX - v) / 16 {
            proof {
                assert(hex_value(next) > usize::MAX) by (nonlinear_arith)
                    requires
                        hex_value(next) == acc * 16 + v,
                        acc > (usize::MAX - v) / 16,
                        v <= 15,
                ;
                if forall|k: int| 0 <= k < d.len() ==> hex_digit_value(#[trigger] d[k]) >= 0 {
                    lemma_hex_prefix(d, i - off + 1);
                    assert(hex_value(d) > usize::MAX);
                } else {
                    assert(exists|k: int| 0 <= k < d.len() && hex_digit_value(#[trigger] d[k]) < 0);
                }
            }
            return None;
        }
        assert(acc * 16 + v <= usize::MAX) by (nonlinear_arith)
            requires
                acc <= (usize::MAX - v) / 16,
                v <= 15,
        ;
        acc = acc * 16 + v;
        i = i + 1;
    }
    assert(d.subrange(0, i - off) =~= d);
    Some(acc)
}

/// The address range of the program's code in `/proc/self/maps` text, for the executable at
/// path `exe`.
pub fn executable_range(maps: &[u8], exe: &[u8]) -> (r: Result<(usize, usize), MapsError>)
    ensures
        match r {
            Ok((start, end)) => code_range(maps@, exe@) == Ok::<(nat, nat), MapsError>((start as nat, end as nat)),
            Err(e) => code_range(maps@, exe@) == Err::<(nat, nat), MapsError>(e),
        },
{
    let ls = split_lines(maps);
    let ghost lsv = contents(ls@);
    let perms: [u8; 4] = [114u8, 45u8, 120u8, 112u8];
    assert(perms@ =~= executable_perms());
    let mut i: usize = 0;
    let mut found: Option<usize> = None;
    while i < ls.len() && found.is_none()
        invariant
            i <= ls.len(),
            lsv == contents(ls@),
            lsv == lines(maps@),
            perms@ == executable_perms(),
            found is None ==> code_mapping_from(lsv, exe@, 0) == code_mapping_from(lsv, exe@, i as int),
            found matches Some(k) ==> k < ls.len() && code_mapping_from(lsv, exe@, 0) == Some(lsv[k as int]),
        decreases ls.len() - i + if found is None { 1int } else { 0int },
    {
        let line = ls[i].as_slice();
        assert(lsv[i as int] == line@);
        let ends = line.len() >= exe.len() && same_bytes(slice_bytes(line, line.len() - exe.len(), line.len()).as_slice(), exe);
        if contains_bytes(line, &perms) && ends {
            found = Some(i);
        } else {
            i = i + 1;
        }
    }
    let index = match found {
        Some(index) => index,
        None => {
            return Err(MapsError::NotFound);
        },
    };
    let f = split_fields(ls[index].as_slice());
    let range: Vec<u8> = if f.len() > 0 {
        slice_bytes(f[0].as_slice(), 0, f[0].len())
    } else {
        Vec::new()
    };
    proof {
        if f.len() > 0 {
            assert(contents(f@)[0] == f@[0]@);
            assert(f@[0]@.subrange(0, f@[0]@.len() as int) =~= f@[0]@);
        } else {
            assert(range@ =~= Seq::<u8>::empty());
        }
    }
    let dash: [u8; 1] = [45u8];
    assert(dash@ =~= seq![45u8]);
    proof {
        lemma_find_bound(range@, seq![45u8]);
    }
    let p = match find_bytes(range.as_slice(), &dash) {
        Some(p) => p,
        None => {
            return Err(MapsError::InvalidRange);
        },
    };
    let start = parse_hex_usize(slice_bytes(range.as_slice(), 0, p).as_slice());
    let end = parse_hex_usize(slice_bytes(range.as_slice(), p + 1, range.len()).as_slice());
    match (start, end) {
        (Some(start), Some(end)) => {
            let span = if end >= start { end - start } else { 0 };
            if span > BUCKETS * 32 {
                return Err(MapsError::TooLarge);
            }
            Ok((start, end))
        },
        _ => Err(MapsError::InvalidAddress),
    }
}

/// The bucket that counts a sample at address `pc`, for code loaded at `base`; `None` for an
/// address outside the buckets.
pub fn bucket_of(pc: usize, base: usize) -> (b: Option<usize>)
    ensures
        b == if vstd::wrapping::usize_specs::wrapping_sub(pc, base) / 32 < BUCKETS {
            Some(vstd::wrapping::usize_specs::wrapping_sub(pc, base) / 32)
        } else {
            None::<usize>
        },
{
    let offset = pc.wrapping_sub(base);
    let slot = offset >> BUCKET_SHIFT;
    assert(slot == offset / 32) by (bit_vector)
        requires
            slot == offset >> 5usize,
    ;
    if slot < BUCKETS {
        Some(slot)
    } else {
        None
    }
}

} // verus!
