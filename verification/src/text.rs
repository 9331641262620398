//! Byte-string utilities shared by the unfolding parser, the field
//! extractor and the reply builder, each with an exact specification.

use vstd::prelude::*;

verus! {

/// ASCII whitespace, as trimmed from continuation fragments.
pub open spec fn is_ws_byte(b: u8) -> bool {
    b == (' ' as u8) || b == ('\t' as u8) || b == ('\n' as u8) || b == ('\r' as u8)
        || b == 0x0b || b == 0x0c
}

/// `s` with leading whitespace removed.
pub open spec fn trim_front(s: Seq<u8>) -> Seq<u8>
    decreases s.len(),
{
    if s.len() > 0 && is_ws_byte(s[0]) {
        trim_front(s.drop_first())
    } else {
        s
    }
}

/// `s` with trailing whitespace removed.
pub open spec fn trim_back(s: Seq<u8>) -> Seq<u8>
    decreases s.len(),
{
    if s.len() > 0 && is_ws_byte(s.last()) {
        trim_back(s.drop_last())
    } else {
        s
    }
}

/// `s` with leading and trailing whitespace removed.
pub open spec fn trim_bytes(s: Seq<u8>) -> Seq<u8> {
    trim_back(trim_front(s))
}

fn is_ws(b: u8) -> (r: bool)
    ensures
        r == is_ws_byte(b),
{
    b == (' ' as u8) || b == ('\t' as u8) || b == ('\n' as u8) || b == ('\r' as u8)
        || b == 0x0b || b == 0x0c
}

/// Copy of `s` with leading and trailing whitespace removed.
pub fn trim(s: &Vec<u8>) -> (r: Vec<u8>)
    ensures
        r@ == trim_bytes(s@),
{
    let mut start: usize = 0;
    assert(s@.skip(0) =~= s@);
    while start < s.len() && is_ws(s[start])
        invariant
            0 <= start <= s@.len(),
            trim_front(s@) == trim_front(s@.skip(start as int)),
        decreases s@.len() - start,
    {
        assert(s@.skip(start as int).drop_first() =~= s@.skip(start as int + 1));
        start = start + 1;
    }
    assert(trim_front(s@) =~= s@.skip(start as int));
    let mut end: usize = s.len();
    assert(s@.skip(start as int) =~= s@.subrange(start as int, s@.len() as int));
    while end > start && is_ws(s[end - 1])
        invariant
            start <= end <= s@.len(),
            trim_back(s@.skip(start as int)) == trim_back(s@.subrange(start as int, end as int)),
        decreases end,
    {
        assert(s@.subrange(start as int, end as int).drop_last()
            =~= s@.subrange(start as int, end as int - 1));
        end = end - 1;
    }
    assert(trim_back(s@.subrange(start as int, end as int))
        =~= s@.subrange(start as int, end as int));
    let mut r: Vec<u8> = Vec::new();
    assert(Seq::<u8>::empty() =~= s@.subrange(start as int, start as int));
    let mut i: usize = start;
    while i < end
        invariant
            start <= i <= end <= s@.len(),
            r@ == s@.subrange(start as int, i as int),
        decreases end - i,
    {
        r.push(s[i]);
        assert(r@ =~= s@.subrange(start as int, i as int + 1));
        i = i + 1;
    }
    r
}

/// `p` is a prefix of `s`.
pub open spec fn has_prefix(s: Seq<u8>, p: Seq<u8>) -> bool {
    p.len() <= s.len() && s.subrange(0, p.len() as int) == p
}

/// The rest of `s` after a prefix of the length of `p`.
pub open spec fn after_prefix(s: Seq<u8>, p: Seq<u8>) -> Seq<u8> {
    s.skip(p.len() as int)
}

/// `p` occurs in `s` starting at position `i`.
pub open spec fn occurs_at(s: Seq<u8>, p: Seq<u8>, i: int) -> bool {
    0 <= i && i + p.len() <= s.len() && s.subrange(i, i + p.len()) == p
}

/// `p` occurs somewhere in `s`.
pub open spec fn contains_seq(s: Seq<u8>, p: Seq<u8>) -> bool {
    exists|i: int| occurs_at(s, p, i)
}

/// Whether `p` occurs in `s` at position `i`.
fn matches_at(s: &Vec<u8>, p: &Vec<u8>, i: usize) -> (r: bool)
    requires
        i + p@.len() <= s@.len(),
    ensures
        r == occurs_at(s@, p@, i as int),
{
    let slen = s.len();
    let plen = p.len();
    let mut j: usize = 0;
    while j < plen
        invariant
            0 <= j <= p@.len(),
            slen == s@.len(),
            plen == p@.len(),
            i + p@.len() <= s@.len(),
            forall|k: int| 0 <= k < j ==> s@[i + k] == p@[k],
        decreases p@.len() - j,
    {
        if s[i + j] != p[j] {
            assert(s@.subrange(i as int, i + p@.len())[j as int] != p@[j as int]);
            return false;
        }
        j = j + 1;
    }
    assert(s@.subrange(i as int, i + p@.len()) =~= p@);
    true
}

/// `p` is a prefix of `s`.
pub fn starts_with(s: &Vec<u8>, p: &Vec<u8>) -> (r: bool)
    ensures
        r == has_prefix(s@, p@),
{
    if p.len() > s.len() {
        return false;
    }
    matches_at(s, p, 0)
}

/// `p` occurs somewhere in `s`.
pub fn contains(s: &Vec<u8>, p: &Vec<u8>) -> (r: bool)
    ensures
        r == contains_seq(s@, p@),
{
    if p.len() > s.len() {
        assert(forall|i: int| !occurs_at(s@, p@, i));
        return false;
    }
    if p.len() == 0 {
        assert(s@.subrange(0, 0) =~= p@);
        assert(occurs_at(s@, p@, 0));
        return true;
    }
    let mut i: usize = 0;
    while i <= s.len() - p.len()
        invariant
            0 < p@.len() <= s@.len(),
            0 <= i <= s@.len() - p@.len() + 1,
            forall|k: int| 0 <= k < i ==> !occurs_at(s@, p@, k),
        decreases s@.len() - p@.len() - i + 1,
    {
        if matches_at(s, p, i) {
            return true;
        }
        i = i + 1;
    }
    assert(forall|k: int| occurs_at(s@, p@, k) ==> 0 <= k < i);
    false
}

/// The suffix of `s` after the last occurrence of the byte `b`; all of `s`
/// when `b` does not occur.
pub open spec fn after_last_byte(s: Seq<u8>, b: u8) -> Seq<u8>
    decreases s.len(),
{
    if s.len() == 0 {
        s
    } else if s.last() == b {
        Seq::empty()
    } else {
        after_last_byte(s.drop_last(), b).push(s.last())
    }
}

/// Copy of the suffix of `s` after the last occurrence of `b`.
pub fn after_last(s: &Vec<u8>, b: u8) -> (r: Vec<u8>)
    ensures
        r@ == after_last_byte(s@, b),
{
    let mut j: usize = s.len();
    assert(s@.subrange(s@.len() as int, s@.len() as int) =~= Seq::<u8>::empty());
    assert(s@.subrange(0, s@.len() as int) =~= s@);
    assert(after_last_byte(s@, b) + Seq::<u8>::empty() =~= after_last_byte(s@, b));
    while j > 0 && s[j - 1] != b
        invariant
            0 <= j <= s@.len(),
            after_last_byte(s@, b) == after_last_byte(s@.subrange(0, j as int), b)
                + s@.subrange(j as int, s@.len() as int),
        decreases j,
    {
        assert(s@.subrange(0, j as int).drop_last() =~= s@.subrange(0, j as int - 1));
        assert(after_last_byte(s@.subrange(0, j as int - 1), b).push(s@[j - 1])
            + s@.subrange(j as int, s@.len() as int)
            =~= after_last_byte(s@.subrange(0, j as int - 1), b)
                + s@.subrange(j as int - 1, s@.len() as int));
        j = j - 1;
    }
    if j > 0 {
        assert(s@.subrange(0, j as int).last() == b);
        assert(after_last_byte(s@, b) =~= s@.subrange(j as int, s@.len() as int));
    } else {
        assert(after_last_byte(s@, b) =~= s@.subrange(0, s@.len() as int));
    }
    let mut r: Vec<u8> = Vec::new();
    let mut i: usize = j;
    assert(Seq::<u8>::empty() =~= s@.subrange(j as int, j as int));
    while i < s.len()
        invariant
            j <= i <= s@.len(),
            r@ == s@.subrange(j as int, i as int),
        decreases s@.len() - i,
    {
        r.push(s[i]);
        assert(r@ =~= s@.subrange(j as int, i as int + 1));
        i = i + 1;
    }
    assert(r@ == after_last_byte(s@, b));
    r
}

/// The suffix of `s` after the last whitespace byte; all of `s` when none
/// occurs: the last whitespace-delimited token of a text without trailing
/// whitespace.
pub open spec fn after_last_ws_byte(s: Seq<u8>) -> Seq<u8>
    decreases s.len(),
{
    if s.len() == 0 {
        s
    } else if is_ws_byte(s.last()) {
        Seq::empty()
    } else {
        after_last_ws_byte(s.drop_last()).push(s.last())
    }
}

/// Copy of the suffix of `s` after the last whitespace byte.
pub fn after_last_ws(s: &Vec<u8>) -> (r: Vec<u8>)
    ensures
        r@ == after_last_ws_byte(s@),
{
    let mut j: usize = s.len();
    assert(s@.subrange(s@.len() as int, s@.len() as int) =~= Seq::<u8>::empty());
    assert(s@.subrange(0, s@.len() as int) =~= s@);
    assert(after_last_ws_byte(s@) + Seq::<u8>::empty() =~= after_last_ws_byte(s@));
    while j > 0 && !is_ws(s[j - 1])
        invariant
            0 <= j <= s@.len(),
            after_last_ws_byte(s@) == after_last_ws_byte(s@.subrange(0, j as int))
                + s@.subrange(j as int, s@.len() as int),
        decreases j,
    {
        assert(s@.subrange(0, j as int).drop_last() =~= s@.subrange(0, j as int - 1));
        assert(after_last_ws_byte(s@.subrange(0, j as int - 1)).push(s@[j - 1])
            + s@.subrange(j as int, s@.len() as int)
            =~= after_last_ws_byte(s@.subrange(0, j as int - 1))
                + s@.subrange(j as int - 1, s@.len() as int));
        j = j - 1;
    }
    if j > 0 {
        assert(is_ws_byte(s@.subrange(0, j as int).last()));
        assert(after_last_ws_byte(s@) =~= s@.subrange(j as int, s@.len() as int));
    } else {
        assert(after_last_ws_byte(s@) =~= s@.subrange(0, s@.len() as int));
    }
    let mut r: Vec<u8> = Vec::new();
    let mut i: usize = j;
    assert(Seq::<u8>::empty() =~= s@.subrange(j as int, j as int));
    while i < s.len()
        invariant
            j <= i <= s@.len(),
            r@ == s@.subrange(j as int, i as int),
        decreases s@.len() - i,
    {
        r.push(s[i]);
        assert(r@ =~= s@.subrange(j as int, i as int + 1));
        i = i + 1;
    }
    assert(r@ == after_last_ws_byte(s@));
    r
}

/// `s` with every double-quote byte removed.
pub open spec fn remove_quotes_spec(s: Seq<u8>) -> Seq<u8>
    decreases s.len(),
{
    if s.len() == 0 {
        s
    } else if s.last() == ('"' as u8) {
        remove_quotes_spec(s.drop_last())
    } else {
        remove_quotes_spec(s.drop_last()).push(s.last())
    }
}

/// Copy of `s` with every double-quote byte removed.
pub fn remove_quotes(s: &Vec<u8>) -> (r: Vec<u8>)
    ensures
        r@ == remove_quotes_spec(s@),
{
    let mut r: Vec<u8> = Vec::new();
    let mut i: usize = 0;
    assert(s@.subrange(0, 0) =~= Seq::<u8>::empty());
    while i < s.len()
        invariant
            0 <= i <= s@.len(),
            r@ == remove_quotes_spec(s@.subrange(0, i as int)),
        decreases s@.len() - i,
    {
        assert(s@.subrange(0, i as int + 1).drop_last() =~= s@.subrange(0, i as int));
        if s[i] != ('"' as u8) {
            r.push(s[i]);
        }
        i = i + 1;
    }
    assert(s@.subrange(0, s@.len() as int) =~= s@);
    r
}

/// ASCII decimal digit.
pub open spec fn is_digit(b: u8) -> bool {
    ('0' as u8) <= b && b <= ('9' as u8)
}

pub open spec fn all_digits(s: Seq<u8>) -> bool {
    forall|i: int| 0 <= i < s.len() ==> is_digit(#[trigger] s[i])
}

/// The number written by a sequence of decimal digit bytes.
pub open spec fn digits_val(s: Seq<u8>) -> nat
    decreases s.len(),
{
    if s.len() == 0 {
        0
    } else {
        digits_val(s.drop_last()) * 10 + (s.last() - ('0' as u8)) as nat
    }
}

/// `s` with one leading plus sign removed, as an unsigned decimal parse
/// accepts it.
pub open spec fn strip_plus(s: Seq<u8>) -> Seq<u8> {
    if s.len() > 0 && s[0] == ('+' as u8) {
        s.drop_first()
    } else {
        s
    }
}

/// The value of `s` read as an unsigned decimal number: digits only (after
/// an optional leading plus sign), nonempty, and within `u32` range.
pub open spec fn parse_u32_spec(s: Seq<u8>) -> Option<u32> {
    let d = strip_plus(s);
    if d.len() > 0 && all_digits(d) && digits_val(d) <= u32::MAX {
        Some(digits_val(d) as u32)
    } else {
        None
    }
}

proof fn lemma_digits_val_monotone(s: Seq<u8>, i: int)
    requires
        0 <= i <= s.len(),
        all_digits(s),
    ensures
        digits_val(s.subrange(0, i)) <= digits_val(s),
    decreases s.len() - i,
{
    if i == s.len() {
        assert(s.subrange(0, i) =~= s);
    } else {
        assert(s.subrange(0, i + 1).drop_last() =~= s.subrange(0, i));
        lemma_digits_val_monotone(s, i + 1);
    }
}

/// Read `s` as an unsigned decimal number, `None` on any malformed input
/// or overflow.
pub fn parse_u32(s: &Vec<u8>) -> (r: Option<u32>)
    ensures
        r == parse_u32_spec(s@),
{
    let slen = s.len();
    let start: usize = if slen > 0 && s[0] == ('+' as u8) {
        1
    } else {
        0
    };
    assert(start == 1 ==> strip_plus(s@) =~= s@.skip(1));
    assert(start == 0 ==> strip_plus(s@) =~= s@.skip(0));
    let ghost d = strip_plus(s@);
    if slen == start {
        return None;
    }
    let mut i: usize = start;
    while i < slen
        invariant
            start <= i <= slen,
            slen == s@.len(),
            d == s@.skip(start as int),
            d == strip_plus(s@),
            forall|k: int| 0 <= k < i - start ==> is_digit(#[trigger] d[k]),
        decreases slen - i,
    {
        if !(s[i] >= ('0' as u8) && s[i] <= ('9' as u8)) {
            assert(!is_digit(d[i - start as int]));
            return None;
        }
        i = i + 1;
    }
    assert(all_digits(d));
    let mut acc: u64 = 0;
    let mut i: usize = start;
    assert(d.subrange(0, 0) =~= Seq::<u8>::empty());
    while i < slen
        invariant
            start <= i <= slen,
            slen == s@.len(),
            d == s@.skip(start as int),
            d == strip_plus(s@),
            all_digits(d),
            acc == digits_val(d.subrange(0, i - start as int)),
            acc <= u32::MAX,
        decreases slen - i,
    {
        assert(d.subrange(0, i - start as int + 1).drop_last()
            =~= d.subrange(0, i - start as int));
        assert(is_digit(d[i - start as int]));
        acc = acc * 10 + ((s[i] - ('0' as u8)) as u64);
        if acc > (u32::MAX as u64) {
            proof {
                lemma_digits_val_monotone(d, i - start as int + 1);
                assert(d.subrange(0, d.len() as int) =~= d);
            }
            return None;
        }
        i = i + 1;
    }
    assert(d.subrange(0, d.len() as int) =~= d);
    Some(acc as u32)
}

/// The decimal digit bytes of `n`, most significant first.
pub open spec fn dec_digits(n: nat) -> Seq<u8>
    decreases n,
{
    if n < 10 {
        seq![(('0' as u8) + n) as u8]
    } else {
        dec_digits(n / 10).push((('0' as u8) + n % 10) as u8)
    }
}

/// Write `n` in decimal.
pub fn u64_to_dec(n: u64) -> (r: Vec<u8>)
    ensures
        r@ == dec_digits(n as nat),
{
    let mut r: Vec<u8> = Vec::new();
    if n == 0 {
        r.push('0' as u8);
        assert(r@ =~= dec_digits(0));
        return r;
    }
    let mut m: u64 = n;
    assert(dec_digits(n as nat) + Seq::<u8>::empty() =~= dec_digits(n as nat));
    while m > 0
        invariant
            m > 0 ==> dec_digits(n as nat) == dec_digits(m as nat) + r@,
            m == 0 ==> dec_digits(n as nat) == r@,
        decreases m,
    {
        let digit: u8 = ('0' as u8) + ((m % 10) as u8);
        let ghost r_old = r@;
        r.insert(0, digit);
        assert(r@ =~= seq![digit] + r_old);
        proof {
            if m < 10 {
                assert(dec_digits(m as nat) =~= seq![digit]);
            } else {
                assert(dec_digits(m as nat) == dec_digits((m as nat) / 10).push(digit));
                assert(dec_digits((m as nat) / 10).push(digit) + r_old
                    =~= dec_digits((m as nat) / 10) + (seq![digit] + r_old));
                assert((m / 10) as nat == (m as nat) / 10);
            }
        }
        m = m / 10;
    }
    r
}


/// The views of a sequence of byte vectors.
pub open spec fn views(vs: Seq<Vec<u8>>) -> Seq<Seq<u8>> {
    Seq::new(vs.len(), |i: int| vs[i]@)
}

/// `l` with one trailing carriage return removed, as a line separator of
/// either kind leaves the line.
pub open spec fn chomp_cr(l: Seq<u8>) -> Seq<u8> {
    if l.len() > 0 && l.last() == ('\r' as u8) {
        l.drop_last()
    } else {
        l
    }
}

/// The physical lines of `s` from position `i` on, with `cur` the partial
/// line read so far: lines are separated by a newline byte, each stripped
/// of one trailing carriage return, and a final newline ends the last line
/// rather than opening an empty one.
pub open spec fn split_from(s: Seq<u8>, i: int, cur: Seq<u8>) -> Seq<Seq<u8>>
    decreases s.len() - i,
{
    if i < 0 || i >= s.len() {
        if s.len() > 0 && s[s.len() - 1] != ('\n' as u8) {
            seq![chomp_cr(cur)]
        } else {
            seq![]
        }
    } else if s[i] == ('\n' as u8) {
        seq![chomp_cr(cur)] + split_from(s, i + 1, Seq::empty())
    } else {
        split_from(s, i + 1, cur.push(s[i]))
    }
}

/// The physical lines of `s`.
pub open spec fn split_lines_spec(s: Seq<u8>) -> Seq<Seq<u8>> {
    split_from(s, 0, Seq::empty())
}

/// Split `text` into its physical lines.
pub fn split_lines(text: &Vec<u8>) -> (r: Vec<Vec<u8>>)
    ensures
        views(r@) == split_lines_spec(text@),
{
    let mut out: Vec<Vec<u8>> = Vec::new();
    let mut cur: Vec<u8> = Vec::new();
    let n = text.len();
    let mut i: usize = 0;
    assert(views(out@) =~= Seq::<Seq<u8>>::empty());
    assert(Seq::<Seq<u8>>::empty() + split_lines_spec(text@) =~= split_lines_spec(text@));
    while i < n
        invariant
            0 <= i <= n,
            n == text@.len(),
            split_lines_spec(text@) == views(out@) + split_from(text@, i as int, cur@),
        decreases n - i,
    {
        if text[i] == ('\n' as u8) {
            let ghost cur_view = cur@;
            if cur.len() > 0 && cur[cur.len() - 1] == ('\r' as u8) {
                cur.pop();
            }
            assert(cur@ == chomp_cr(cur_view));
            let ghost out_view = out@;
            out.push(cur);
            assert(views(out@) =~= views(out_view).push(chomp_cr(cur_view)));
            cur = Vec::new();
            assert(views(out_view).push(chomp_cr(cur_view)) + split_from(text@, i as int + 1, cur@)
                =~= views(out_view) + (seq![chomp_cr(cur_view)] + split_from(
                text@,
                i as int + 1,
                Seq::empty(),
            )));
        } else {
            cur.push(text[i]);
        }
        i = i + 1;
    }
    if n > 0 && text[n - 1] != ('\n' as u8) {
        let ghost cur_view = cur@;
        if cur.len() > 0 && cur[cur.len() - 1] == ('\r' as u8) {
            cur.pop();
        }
        assert(cur@ == chomp_cr(cur_view));
        let ghost out_view = out@;
        out.push(cur);
        assert(views(out@) =~= views(out_view).push(chomp_cr(cur_view)));
        assert(views(out_view) + seq![chomp_cr(cur_view)] =~= views(out@));
    } else {
        assert(views(out@) + Seq::<Seq<u8>>::empty() =~= views(out@));
    }
    out
}

} // verus!
