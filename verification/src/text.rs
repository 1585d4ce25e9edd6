use vstd::prelude::*;

verus! {

/// `pat` occurs in `s` at byte position `i`.
pub open spec fn occurs_at(s: Seq<u8>, pat: Seq<u8>, i: int) -> bool {
    0 <= i && i + pat.len() <= s.len() && s.subrange(i, i + pat.len()) == pat
}

/// The first position at or after `i` where `pat` occurs in `s`.
pub open spec fn find_from(s: Seq<u8>, pat: Seq<u8>, i: int) -> Option<int>
    decreases s.len() + 1 - i,
{
    if i < 0 || i + pat.len() > s.len() {
        None
    } else if occurs_at(s, pat, i) {
        Some(i)
    } else {
        find_from(s, pat, i + 1)
    }
}

/// The first position where `pat` occurs in `s`.
pub open spec fn find(s: Seq<u8>, pat: Seq<u8>) -> Option<int> {
    find_from(s, pat, 0)
}

pub open spec fn contains(s: Seq<u8>, pat: Seq<u8>) -> bool {
    find(s, pat) is Some
}

/// `s` with every non-overlapping occurrence of a non-empty `from`, taken left to right,
/// replaced by `to`; `s` unchanged for an empty `from`.
pub open spec fn replace_all(s: Seq<u8>, from: Seq<u8>, to: Seq<u8>) -> Seq<u8>
    decreases s.len(),
{
    if from.len() == 0 || s.len() < from.len() {
        s
    } else if s.subrange(0, from.len() as int) == from {
        to + replace_all(s.subrange(from.len() as int, s.len() as int), from, to)
    } else {
        seq![s[0]] + replace_all(s.subrange(1, s.len() as int), from, to)
    }
}

/// `s` with its first occurrence of `from` replaced by `to`.
pub open spec fn replace_first(s: Seq<u8>, from: Seq<u8>, to: Seq<u8>) -> Seq<u8> {
    match find(s, from) {
        Some(i) => s.subrange(0, i) + to + s.subrange(i + from.len(), s.len() as int),
        None => s,
    }
}

/// `s` with the bytes `[start, end)` replaced by `with`.
pub open spec fn splice(s: Seq<u8>, start: int, end: int, with: Seq<u8>) -> Seq<u8> {
    s.subrange(0, start) + with + s.subrange(end, s.len() as int)
}

proof fn lemma_find_from(s: Seq<u8>, pat: Seq<u8>, i: int)
    requires
        0 <= i,
    ensures
        find_from(s, pat, i) matches Some(k) ==> i <= k && occurs_at(s, pat, k) && forall|j: int| i <= j < k ==> !#[trigger] occurs_at(s, pat, j),
        find_from(s, pat, i) is None ==> forall|j: int| i <= j ==> !#[trigger] occurs_at(s, pat, j),
    decreases s.len() + 1 - i,
{
    if i + pat.len() <= s.len() && !occurs_at(s, pat, i) {
        lemma_find_from(s, pat, i + 1);
    }
}

/// Bytes `[i, i + pat.len())` of `s` equal `pat`.
fn occurs_at_exec(s: &[u8], pat: &[u8], i: usize) -> (r: bool)
    ensures
        r == occurs_at(s@, pat@, i as int),
{
    let n = s.len();
    if pat.len() > n || i > n - pat.len() {
        return false;
    }
    let mut k: usize = 0;
    while k < pat.len()
        invariant
            n == s@.len(),
            i + pat@.len() <= n,
            k <= pat@.len(),
            forall|j: int| 0 <= j < k ==> s@[i + j] == pat@[j],
        decreases pat@.len() - k,
    {
        if s[i + k] != pat[k] {
            proof {
                assert(s@.subrange(i as int, i + pat@.len())[k as int] != pat@[k as int]);
            }
            return false;
        }
        k += 1;
    }
    assert(s@.subrange(i as int, i + pat@.len()) =~= pat@);
    true
}

/// The first position at or after `start` where `pat` occurs in `s`.
pub fn find_bytes_from(s: &[u8], pat: &[u8], start: usize) -> (found: Option<usize>)
    ensures
        found matches Some(k) ==> find_from(s@, pat@, start as int) == Some(k as int),
        found is None ==> find_from(s@, pat@, start as int) is None,
{
    let mut i = start;
    let n = s.len();
    proof {
        lemma_find_from(s@, pat@, start as int);
    }
    while i <= n && pat.len() <= n - i
        invariant
            n == s@.len(),
            start <= i,
            find_from(s@, pat@, start as int) == find_from(s@, pat@, i as int),
        decreases s@.len() + 1 - i,
    {
        if occurs_at_exec(s, pat, i) {
            return Some(i);
        }
        proof {
            if i == n {
                assert(s@.subrange(i as int, i as int) =~= pat@);
            }
        }
        i += 1;
    }
    None
}

/// The first position where `pat` occurs in `s`.
pub fn find_bytes(s: &[u8], pat: &[u8]) -> (found: Option<usize>)
    ensures
        found matches Some(k) ==> find(s@, pat@) == Some(k as int),
        found is None ==> find(s@, pat@) is None,
{
    find_bytes_from(s, pat, 0)
}

/// Whether `pat` occurs in `s`.
pub fn contains_bytes(s: &[u8], pat: &[u8]) -> (r: bool)
    ensures
        r == contains(s@, pat@),
{
    find_bytes(s, pat).is_some()
}

fn append_slice(out: &mut Vec<u8>, bytes: &[u8])
    ensures
        final(out)@ == old(out)@ + bytes@,
{
    let mut k: usize = 0;
    while k < bytes.len()
        invariant
            k <= bytes@.len(),
            out@ == old(out)@ + bytes@.subrange(0, k as int),
        decreases bytes@.len() - k,
    {
        out.push(bytes[k]);
        proof {
            assert(bytes@.subrange(0, k + 1) =~= bytes@.subrange(0, k as int).push(bytes@[k as int]));
        }
        k += 1;
    }
    assert(bytes@.subrange(0, bytes@.len() as int) =~= bytes@);
}

fn append_range(out: &mut Vec<u8>, bytes: &[u8], from: usize, to: usize)
    requires
        from <= to <= bytes@.len(),
    ensures
        final(out)@ == old(out)@ + bytes@.subrange(from as int, to as int),
{
    let mut k: usize = from;
    while k < to
        invariant
            from <= k <= to <= bytes@.len(),
            out@ == old(out)@ + bytes@.subrange(from as int, k as int),
        decreases to - k,
    {
        out.push(bytes[k]);
        proof {
            assert(bytes@.subrange(from as int, k + 1) =~= bytes@.subrange(from as int, k as int).push(bytes@[k as int]));
        }
        k += 1;
    }
}

proof fn lemma_replace_step(s: Seq<u8>, from: Seq<u8>, to: Seq<u8>, i: int)
    requires
        from.len() > 0,
        0 <= i < s.len(),
    ensures
        replace_all(s.subrange(i, s.len() as int), from, to) == if occurs_at(s, from, i) {
            to + replace_all(s.subrange(i + from.len(), s.len() as int), from, to)
        } else {
            seq![s[i]] + replace_all(s.subrange(i + 1, s.len() as int), from, to)
        },
{
    let t = s.subrange(i, s.len() as int);
    if occurs_at(s, from, i) {
        assert(t.subrange(0, from.len() as int) =~= s.subrange(i, i + from.len()));
        assert(t.subrange(from.len() as int, t.len() as int) =~= s.subrange(i + from.len(), s.len() as int));
    } else {
        if t.len() >= from.len() {
            assert(t.subrange(0, from.len() as int) =~= s.subrange(i, i + from.len()));
        }
        assert(t.subrange(1, t.len() as int) =~= s.subrange(i + 1, s.len() as int));
        if t.len() < from.len() {
            assert(replace_all(t, from, to) == t);
            assert(t.len() - 1 < from.len());
            assert(replace_all(s.subrange(i + 1, s.len() as int), from, to) == s.subrange(i + 1, s.len() as int));
            assert(t =~= seq![s[i]] + s.subrange(i + 1, s.len() as int));
        }
    }
}

/// `s` with every non-overlapping occurrence of `from` replaced by `to`.
pub fn replace_all_bytes(s: &[u8], from: &[u8], to: &[u8]) -> (r: Vec<u8>)
    ensures
        r@ == replace_all(s@, from@, to@),
{
    let mut out: Vec<u8> = Vec::new();
    if from.len() == 0 {
        append_slice(&mut out, s);
        assert(out@ =~= s@);
        return out;
    }
    let mut i: usize = 0;
    assert(s@.subrange(0, s@.len() as int) =~= s@);
    while i < s.len()
        invariant
            from@.len() > 0,
            i <= s@.len(),
            out@ + replace_all(s@.subrange(i as int, s@.len() as int), from@, to@) == replace_all(s@, from@, to@),
        decreases s@.len() - i,
    {
        proof {
            lemma_replace_step(s@, from@, to@, i as int);
        }
        if occurs_at_exec(s, from, i) {
            let ghost before = out@;
            append_slice(&mut out, to);
            proof {
                assert(out@ + replace_all(s@.subrange(i + from@.len(), s@.len() as int), from@, to@) =~= before + (to@
                    + replace_all(s@.subrange(i + from@.len(), s@.len() as int), from@, to@)));
            }
            i += from.len();
        } else {
            let ghost before = out@;
            out.push(s[i]);
            proof {
                assert(out@ + replace_all(s@.subrange(i + 1, s@.len() as int), from@, to@) =~= before + (seq![s@[i as int]]
                    + replace_all(s@.subrange(i + 1, s@.len() as int), from@, to@)));
            }
            i += 1;
        }
    }
    proof {
        assert(replace_all(s@.subrange(i as int, s@.len() as int), from@, to@) == s@.subrange(i as int, s@.len() as int));
        assert(out@ =~= out@ + s@.subrange(i as int, s@.len() as int));
    }
    out
}

/// `s` with the bytes `[start, end)` replaced by `with`.
pub fn splice_bytes(s: &[u8], start: usize, end: usize, with: &[u8]) -> (r: Vec<u8>)
    requires
        start <= end <= s@.len(),
    ensures
        r@ == splice(s@, start as int, end as int, with@),
{
    let mut out: Vec<u8> = Vec::new();
    append_range(&mut out, s, 0, start);
    append_slice(&mut out, with);
    append_range(&mut out, s, end, s.len());
    assert(out@ =~= splice(s@, start as int, end as int, with@));
    out
}

/// `s` with its first occurrence of `from` replaced by `to`.
pub fn replace_first_bytes(s: &[u8], from: &[u8], to: &[u8]) -> (r: Vec<u8>)
    ensures
        r@ == replace_first(s@, from@, to@),
{
    match find_bytes(s, from) {
        Some(i) => {
            proof {
                lemma_find_from(s@, from@, 0);
                assert(i + from@.len() <= s@.len());
                assert(s@.len() == s.len());
            }
            splice_bytes(s, i, i + from.len(), to)
        },
        None => {
            let mut out: Vec<u8> = Vec::new();
            append_slice(&mut out, s);
            assert(out@ =~= s@);
            out
        },
    }
}

/// `a` followed by `b`.
pub fn concat_bytes(a: &[u8], b: &[u8]) -> (r: Vec<u8>)
    ensures
        r@ == a@ + b@,
{
    let mut out: Vec<u8> = Vec::new();
    append_slice(&mut out, a);
    append_slice(&mut out, b);
    assert(out@ =~= a@ + b@);
    out
}

/// A pattern occurs in itself.
pub proof fn lemma_contains_self(pat: Seq<u8>)
    ensures
        contains(pat, pat),
{
    assert(pat.subrange(0, pat.len() as int) =~= pat);
    assert(occurs_at(pat, pat, 0));
}

/// A pattern that occurs in the head of a sequence occurs in the whole.
pub proof fn lemma_contains_prefix(p: Seq<u8>, q: Seq<u8>, pat: Seq<u8>)
    requires
        contains(p, pat),
    ensures
        contains(p + q, pat),
{
    let k = find(p, pat)->Some_0;
    lemma_find_from(p, pat, 0);
    let s = p + q;
    assert(s.subrange(k, k + pat.len()) =~= p.subrange(k, k + pat.len()));
    assert(occurs_at(s, pat, k));
    lemma_find_from(s, pat, 0);
}

/// A pattern that occurs in the tail of a sequence occurs in the whole.
pub proof fn lemma_contains_suffix(p: Seq<u8>, q: Seq<u8>, pat: Seq<u8>)
    requires
        contains(q, pat),
    ensures
        contains(p + q, pat),
{
    let k = find(q, pat)->Some_0;
    lemma_find_from(q, pat, 0);
    let s = p + q;
    assert(s.subrange(p.len() + k, p.len() + k + pat.len()) =~= q.subrange(k, k + pat.len()));
    assert(occurs_at(s, pat, p.len() + k));
    lemma_find_from(s, pat, 0);
}

/// A path with backslashes read as slashes.
pub open spec fn normalize_path(path: Seq<u8>) -> Seq<u8> {
    path.map_values(|b: u8| if b == 92u8 { 47u8 } else { b })
}

/// `path` with backslashes read as slashes.
pub fn normalize(path: &[u8]) -> (n: Vec<u8>)
    ensures
        n@ == normalize_path(path@),
{
    let mut n: Vec<u8> = Vec::new();
    let mut i: usize = 0;
    while i < path.len()
        invariant
            i <= path@.len(),
            n@ == normalize_path(path@.subrange(0, i as int)),
        decreases path@.len() - i,
    {
        let b = path[i];
        n.push(if b == 92u8 { 47u8 } else { b });
        proof {
            assert(normalize_path(path@.subrange(0, i + 1)) =~= normalize_path(path@.subrange(0, i as int)).push(
                if b == 92u8 { 47u8 } else { b },
            ));
        }
        i += 1;
    }
    assert(path@.subrange(0, path@.len() as int) =~= path@);
    n
}

/// Whether two byte strings are equal.
pub fn same_bytes(a: &[u8], b: &[u8]) -> (r: bool)
    ensures
        r == (a@ == b@),
{
    if a.len() != b.len() {
        return false;
    }
    let mut i: usize = 0;
    while i < a.len()
        invariant
            a@.len() == b@.len(),
            i <= a@.len(),
            forall|j: int| 0 <= j < i ==> a@[j] == b@[j],
        decreases a@.len() - i,
    {
        if a[i] != b[i] {
            return false;
        }
        i += 1;
    }
    assert(a@ =~= b@);
    true
}

/// Whether `s` starts with `prefix`.
pub fn starts_with_bytes(s: &[u8], prefix: &[u8]) -> (r: bool)
    ensures
        r == occurs_at(s@, prefix@, 0),
{
    occurs_at_exec(s, prefix, 0)
}

/// Bytes `[from, to)` of `s`.
pub fn slice_bytes(s: &[u8], from: usize, to: usize) -> (r: Vec<u8>)
    requires
        from <= to <= s.len(),
    ensures
        r@ == s@.subrange(from as int, to as int),
{
    let mut r: Vec<u8> = Vec::new();
    append_range(&mut r, s, from, to);
    assert(r@ =~= s@.subrange(from as int, to as int));
    r
}

/// Where `find` reports a position, `pat` lies inside `s` there.
pub proof fn lemma_find_bound(s: Seq<u8>, pat: Seq<u8>)
    ensures
        find(s, pat) matches Some(k) ==> 0 <= k && k + pat.len() <= s.len() && occurs_at(s, pat, k),
{
    lemma_find_from(s, pat, 0);
}

/// Searching `s` from `start` finds what searching its suffix from `start` finds, shifted.
pub proof fn lemma_find_suffix(s: Seq<u8>, pat: Seq<u8>, start: int, i: int)
    requires
        0 <= start <= i,
        start <= s.len(),
    ensures
        find_from(s, pat, i) == match find_from(s.subrange(start, s.len() as int), pat, i - start) {
            Some(k) => Some(k + start),
            None => None::<int>,
        },
    decreases s.len() + 1 - i,
{
    let t = s.subrange(start, s.len() as int);
    if i + pat.len() <= s.len() {
        assert(s.subrange(i, i + pat.len()) =~= t.subrange(i - start, i - start + pat.len()));
        if !occurs_at(s, pat, i) {
            lemma_find_suffix(s, pat, start, i + 1);
        }
    }
}

/// Wherever `pat` occurs in `s` it starts a line: right after a newline, or at the start of
/// `s` where `at_line_start` says that is one.
pub open spec fn starts_lines(s: Seq<u8>, pat: Seq<u8>, at_line_start: bool) -> bool {
    forall|i: int| #[trigger] occurs_at(s, pat, i) ==> if i == 0 { at_line_start } else { s[i - 1] == 10u8 }
}

/// `pat` is one line: it ends with a newline and has no other.
pub open spec fn one_line(pat: Seq<u8>) -> bool {
    &&& pat.len() >= 2
    &&& pat[pat.len() - 1] == 10u8
    &&& forall|j: int| 0 <= j < pat.len() - 1 ==> #[trigger] pat[j] != 10u8
}

/// Where removing the lines `pat` from `t` leaves text that starts with the end of `pat` from
/// byte `k` on, `t` starts with it already.
proof fn lemma_removal_prefix(t: Seq<u8>, pat: Seq<u8>, k: int)
    requires
        one_line(pat),
        1 <= k < pat.len(),
        starts_lines(t, pat, false),
        replace_all(t, pat, Seq::empty()).len() >= pat.len() - k,
        replace_all(t, pat, Seq::empty()).subrange(0, pat.len() - k) == pat.subrange(k, pat.len() as int),
    ensures
        t.len() >= pat.len() - k,
        t.subrange(0, pat.len() - k) == pat.subrange(k, pat.len() as int),
    decreases t.len(),
{
    let e: Seq<u8> = Seq::empty();
    let n = pat.len() as int;
    let r = replace_all(t, pat, e);
    if t.len() < n {
    } else if t.subrange(0, n) == pat {
        assert(occurs_at(t, pat, 0));
    } else {
        let t1 = t.subrange(1, t.len() as int);
        let r1 = replace_all(t1, pat, e);
        assert(r == seq![t[0]] + r1);
        assert(r[0] == r.subrange(0, n - k)[0]);
        assert(pat.subrange(k, n)[0] == pat[k]);
        if k + 1 < n {
            assert(r1.subrange(0, n - k - 1) =~= r.subrange(0, n - k).subrange(1, n - k));
            assert(pat.subrange(k + 1, n) =~= pat.subrange(k, n).subrange(1, n - k));
            assert forall|i: int| #[trigger] occurs_at(t1, pat, i) implies (if i == 0 { false } else { t1[i - 1] == 10u8 }) by {
                assert(t1.subrange(i, i + n) =~= t.subrange(i + 1, i + 1 + n));
                assert(occurs_at(t, pat, i + 1));
                assert(pat[k] != 10u8);
            }
            lemma_removal_prefix(t1, pat, k + 1);
            assert(t.subrange(0, n - k) =~= seq![t[0]] + t1.subrange(0, n - k - 1));
            assert(pat.subrange(k, n) =~= seq![pat[k]] + pat.subrange(k + 1, n));
        } else {
            assert(t.subrange(0, 1) =~= seq![t[0]]);
            assert(pat.subrange(k, n) =~= seq![pat[k]]);
        }
    }
}

/// Removing every occurrence of a line `pat` that only ever occurs as a whole line leaves no
/// occurrence of it: no removal joins the text around it into a new one.
pub proof fn lemma_removal_leaves_none(s: Seq<u8>, pat: Seq<u8>, at_line_start: bool)
    requires
        one_line(pat),
        starts_lines(s, pat, at_line_start),
    ensures
        forall|i: int| !#[trigger] occurs_at(replace_all(s, pat, Seq::empty()), pat, i),
    decreases s.len(),
{
    let e: Seq<u8> = Seq::empty();
    let n = pat.len() as int;
    let r = replace_all(s, pat, e);
    if s.len() < n {
        assert(r == s);
    } else if s.subrange(0, n) == pat {
        let rest = s.subrange(n, s.len() as int);
        assert(r =~= replace_all(rest, pat, e));
        assert forall|i: int| #[trigger] occurs_at(rest, pat, i) implies (if i == 0 { true } else { rest[i - 1] == 10u8 }) by {
            if i > 0 {
                assert(rest.subrange(i, i + n) =~= s.subrange(n + i, n + i + n));
                assert(occurs_at(s, pat, n + i));
                assert(rest[i - 1] == s[n + i - 1]);
            }
        }
        lemma_removal_leaves_none(rest, pat, true);
    } else {
        let c = s[0];
        let t = s.subrange(1, s.len() as int);
        assert forall|i: int| #[trigger] occurs_at(t, pat, i) implies (if i == 0 { c == 10u8 } else { t[i - 1] == 10u8 }) by {
            assert(t.subrange(i, i + n) =~= s.subrange(i + 1, i + 1 + n));
            assert(occurs_at(s, pat, i + 1));
        }
        lemma_removal_leaves_none(t, pat, c == 10u8);
        let rt = replace_all(t, pat, e);
        assert(r == seq![c] + rt);
        assert forall|i: int| !#[trigger] occurs_at(r, pat, i) by {
            if occurs_at(r, pat, i) {
                if i >= 1 {
                    assert(rt.subrange(i - 1, i - 1 + n) =~= r.subrange(i, i + n));
                    assert(occurs_at(rt, pat, i - 1));
                } else {
                    assert(r[0] == r.subrange(0, n)[0]);
                    assert(c == pat[0]);
                    assert(pat[0] != 10u8);
                    assert(rt.subrange(0, n - 1) =~= r.subrange(0, n).subrange(1, n));
                    assert(pat.subrange(1, n) =~= pat.subrange(1, n));
                    assert forall|j: int| #[trigger] occurs_at(t, pat, j) implies (if j == 0 { false } else { t[j - 1] == 10u8 }) by {
                        assert(occurs_at(t, pat, j));
                    }
                    lemma_removal_prefix(t, pat, 1);
                    assert(s.subrange(0, n) =~= seq![c] + t.subrange(0, n - 1));
                    assert(pat =~= seq![pat[0]] + pat.subrange(1, n));
                }
            }
        }
    }
}

} // verus!
