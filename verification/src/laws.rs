//! Relations between the reply builder and the parsing side: the text the
//! reply builder produces, read back through line splitting, unfolding and
//! field extraction, yields the UID, ORGANIZER and SEQUENCE values it was
//! built from.

use vstd::prelude::*;

use crate::fields::{
    first_with_prefix, organizer_of, organizer_prefix, sequence_of, sequence_prefix, uid_of,
    uid_prefix,
};
use crate::reply::{
    attendee_head, attendee_mid, begin_vcalendar_line, begin_vevent_line, dtstamp_prefix,
    end_vcalendar_line, end_vevent_line, line_clean, method_line, nl, partstat_text, prodid_head,
    reply_lines, reply_text, version_line, Decision,
};
use crate::text::{
    all_digits, chomp_cr, dec_digits, digits_val, has_prefix, is_digit, parse_u32_spec,
    split_from, split_lines_spec, strip_plus,
};
use crate::unfold::{is_upper_byte, lemma_unfold_identity, starts_property, unfold_spec};

verus! {

proof fn lemma_prefix_head(l: Seq<u8>, p: Seq<u8>)
    requires
        has_prefix(l, p),
        p.len() > 0,
    ensures
        l.len() > 0 && l[0] == p[0],
{
    assert(l.subrange(0, p.len() as int)[0] == l[0]);
}

proof fn lemma_not_prefix_head(l: Seq<u8>, p: Seq<u8>)
    requires
        p.len() > 0,
        l.len() == 0 || l[0] != p[0],
    ensures
        !has_prefix(l, p),
{
    if p.len() <= l.len() {
        assert(l.subrange(0, p.len() as int)[0] == l[0]);
    }
}

proof fn lemma_first_with_prefix_at(lines: Seq<Seq<u8>>, p: Seq<u8>, i: int)
    requires
        0 <= i < lines.len(),
        has_prefix(lines[i], p),
        forall|j: int| 0 <= j < i ==> !has_prefix(#[trigger] lines[j], p),
    ensures
        first_with_prefix(lines, p) == Some(lines[i]),
    decreases i,
{
    if i > 0 {
        assert(!has_prefix(lines[0], p));
        assert forall|j: int| 0 <= j < i - 1 implies !has_prefix(
            #[trigger] lines.drop_first()[j],
            p,
        ) by {
            assert(lines.drop_first()[j] == lines[j + 1]);
        }
        assert(lines.drop_first()[i - 1] == lines[i]);
        lemma_first_with_prefix_at(lines.drop_first(), p, i - 1);
    }
}

proof fn lemma_line_clean_concat(a: Seq<u8>, b: Seq<u8>)
    requires
        line_clean(a),
        line_clean(b),
    ensures
        line_clean(a + b),
{
    assert forall|i: int| 0 <= i < (a + b).len() implies (a + b)[i] != ('\n' as u8) && (a + b)[i]
        != ('\r' as u8) by {
        if i < a.len() {
            assert((a + b)[i] == a[i]);
        } else {
            assert((a + b)[i] == b[i - a.len()]);
        }
    }
}

proof fn lemma_digits_clean(s: Seq<u8>)
    requires
        all_digits(s),
    ensures
        line_clean(s),
{
    assert forall|i: int| 0 <= i < s.len() implies s[i] != ('\n' as u8) && s[i] != (
    '\r' as u8) by {
        assert(is_digit(s[i]));
    }
}

// The decimal digits written for a number read back as that number.
proof fn lemma_dec_digits_val(n: nat)
    ensures
        dec_digits(n).len() > 0,
        all_digits(dec_digits(n)),
        digits_val(dec_digits(n)) == n,
    decreases n,
{
    if n < 10 {
        let s = dec_digits(n);
        assert(s.drop_last() =~= Seq::<u8>::empty());
        assert(digits_val(Seq::<u8>::empty()) == 0);
        assert(digits_val(s) == (s.last() - ('0' as u8)) as nat);
    } else {
        lemma_dec_digits_val(n / 10);
        let s = dec_digits(n);
        let d = (('0' as u8) + n % 10) as u8;
        assert(s == dec_digits(n / 10).push(d));
        assert(s.drop_last() =~= dec_digits(n / 10));
        assert(digits_val(s) == (n / 10) * 10 + n % 10);
        assert((n / 10) * 10 + n % 10 == n) by {
            vstd::arithmetic::div_mod::lemma_fundamental_div_mod(n as int, 10);
        }
    }
}

// Writing a number within range in decimal and parsing it back returns
// the same number.
proof fn lemma_parse_dec(n: nat)
    requires
        n <= u32::MAX,
    ensures
        parse_u32_spec(dec_digits(n)) == Some(n as u32),
{
    lemma_dec_digits_val(n);
    let s = dec_digits(n);
    assert(is_digit(s[0]));
    assert(s[0] != ('+' as u8));
    assert(strip_plus(s) == s);
}

// Splitting a line that runs to the end of the text, with no newline in
// it and none before it to come.
proof fn lemma_split_tail(s: Seq<u8>, i: int, cur: Seq<u8>)
    requires
        0 <= i <= s.len(),
        s.len() > 0,
        s[s.len() - 1] != ('\n' as u8),
        forall|j: int| i <= j < s.len() ==> s[j] != ('\n' as u8),
    ensures
        split_from(s, i, cur) == seq![chomp_cr(cur + s.skip(i))],
    decreases s.len() - i,
{
    if i == s.len() {
        assert(cur + s.skip(i) =~= cur);
    } else {
        lemma_split_tail(s, i + 1, cur.push(s[i]));
        assert(cur.push(s[i]) + s.skip(i + 1) =~= cur + s.skip(i));
    }
}

// Splitting up to a newline at position k finishes one line and goes on
// after the newline with an empty accumulator.
proof fn lemma_split_line(s: Seq<u8>, i: int, cur: Seq<u8>, k: int)
    requires
        0 <= i <= k < s.len(),
        s[k] == ('\n' as u8),
        forall|j: int| i <= j < k ==> s[j] != ('\n' as u8),
    ensures
        split_from(s, i, cur) == seq![chomp_cr(cur + s.subrange(i, k))] + split_from(
            s,
            k + 1,
            Seq::empty(),
        ),
    decreases k - i,
{
    if i == k {
        assert(cur + s.subrange(i, k) =~= cur);
    } else {
        lemma_split_line(s, i + 1, cur.push(s[i]), k);
        assert(cur.push(s[i]) + s.subrange(i + 1, k) =~= cur + s.subrange(i, k));
    }
}

// Splitting from a position at or past a cut point reads only the suffix.
proof fn lemma_split_shift(s: Seq<u8>, cut: int, i: int, cur: Seq<u8>)
    requires
        0 <= cut <= i <= s.len(),
        cut < s.len(),
    ensures
        split_from(s, i, cur) == split_from(s.skip(cut), i - cut, cur),
    decreases s.len() - i,
{
    let t = s.skip(cut);
    if i == s.len() {
        assert(t.len() > 0);
        assert(t[t.len() - 1] == s[s.len() - 1]);
    } else {
        assert(t[i - cut] == s[i]);
        if s[i] == ('\n' as u8) {
            lemma_split_shift(s, cut, i + 1, Seq::empty());
        } else {
            lemma_split_shift(s, cut, i + 1, cur.push(s[i]));
        }
    }
}

// Splitting text that is one clean line, a newline, and more nonempty
// text yields that line and then the lines of the rest.
proof fn lemma_split_cons(a: Seq<u8>, rest: Seq<u8>)
    requires
        line_clean(a),
        rest.len() > 0,
        rest[rest.len() - 1] != ('\n' as u8),
    ensures
        split_lines_spec(a + nl() + rest) == seq![a] + split_lines_spec(rest),
{
    let s = a + nl() + rest;
    let k = a.len() as int;
    assert(s[k] == ('\n' as u8));
    assert(forall|j: int| 0 <= j < k ==> s[j] == a[j] && s[j] != ('\n' as u8));
    lemma_split_line(s, 0, Seq::empty(), k);
    assert(Seq::<u8>::empty() + s.subrange(0, k) =~= a);
    assert(chomp_cr(a) == a);
    lemma_split_shift(s, k + 1, k + 1, Seq::empty());
    assert(s.skip(k + 1) =~= rest);
}

// Splitting text that is one clean nonempty line yields that line alone.
proof fn lemma_split_single(a: Seq<u8>)
    requires
        line_clean(a),
        a.len() > 0,
    ensures
        split_lines_spec(a) == seq![a],
{
    lemma_split_tail(a, 0, Seq::empty());
    assert(Seq::<u8>::empty() + a.skip(0) =~= a);
    assert(chomp_cr(a) == a);
}

// The reply text splits back into exactly the reply lines.
#[verifier::rlimit(100)]
proof fn lemma_reply_split(
    uid: Seq<u8>,
    organizer: Seq<u8>,
    sequence: u32,
    d: Decision,
    sender: Seq<u8>,
    dtstamp: Seq<u8>,
    version: Seq<u8>,
)
    requires
        line_clean(uid),
        line_clean(organizer),
        line_clean(sender),
        line_clean(dtstamp),
        line_clean(version),
    ensures
        split_lines_spec(reply_text(uid, organizer, sequence, d, sender, dtstamp, version))
            == reply_lines(uid, organizer, sequence, d, sender, dtstamp, version),
{
    let n: nat = sequence as nat + 1;
    let l0 = begin_vcalendar_line();
    let l1 = prodid_head() + version;
    let l2 = version_line();
    let l3 = method_line();
    let l4 = begin_vevent_line();
    let l5 = uid_prefix() + uid;
    let l6 = attendee_head() + partstat_text(d) + attendee_mid() + sender;
    let l7 = organizer;
    let l8 = dtstamp_prefix() + dtstamp;
    let l9 = sequence_prefix() + dec_digits(n);
    let l10 = end_vevent_line();
    let l11 = end_vcalendar_line();
    let ls = seq![l0, l1, l2, l3, l4, l5, l6, l7, l8, l9, l10, l11];
    assert(ls =~= reply_lines(uid, organizer, sequence, d, sender, dtstamp, version));

    // Every line is clean: the fixed lines by inspection, the composed
    // ones from their clean parts.
    assert(line_clean(l0) && line_clean(l2) && line_clean(l3) && line_clean(l4) && line_clean(l10)
        && line_clean(l11));
    assert(line_clean(uid_prefix()) && line_clean(dtstamp_prefix()) && line_clean(
        sequence_prefix(),
    ) && line_clean(prodid_head()));
    assert(line_clean(attendee_head()) && line_clean(attendee_mid()));
    assert(line_clean(partstat_text(d)));
    lemma_line_clean_concat(prodid_head(), version);
    lemma_line_clean_concat(uid_prefix(), uid);
    lemma_line_clean_concat(attendee_head(), partstat_text(d));
    lemma_line_clean_concat(attendee_head() + partstat_text(d), attendee_mid());
    lemma_line_clean_concat(attendee_head() + partstat_text(d) + attendee_mid(), sender);
    lemma_line_clean_concat(dtstamp_prefix(), dtstamp);
    lemma_dec_digits_val(n);
    lemma_digits_clean(dec_digits(n));
    lemma_line_clean_concat(sequence_prefix(), dec_digits(n));

    let t11 = l11;
    let t10 = l10 + nl() + t11;
    let t9 = l9 + nl() + t10;
    let t8 = l8 + nl() + t9;
    let t7 = l7 + nl() + t8;
    let t6 = l6 + nl() + t7;
    let t5 = l5 + nl() + t6;
    let t4 = l4 + nl() + t5;
    let t3 = l3 + nl() + t4;
    let t2 = l2 + nl() + t3;
    let t1 = l1 + nl() + t2;
    let t0 = l0 + nl() + t1;
    assert(t0 =~= reply_text(uid, organizer, sequence, d, sender, dtstamp, version));
    let last = l11[l11.len() - 1];
    assert(last != ('\n' as u8));
    assert(t11[t11.len() - 1] == last && t10[t10.len() - 1] == last && t9[t9.len() - 1] == last
        && t8[t8.len() - 1] == last && t7[t7.len() - 1] == last && t6[t6.len() - 1] == last
        && t5[t5.len() - 1] == last && t4[t4.len() - 1] == last && t3[t3.len() - 1] == last && t2[
    t2.len() - 1] == last && t1[t1.len() - 1] == last);
    lemma_split_single(l11);
    lemma_split_cons(l10, t11);
    lemma_split_cons(l9, t10);
    lemma_split_cons(l8, t9);
    lemma_split_cons(l7, t8);
    lemma_split_cons(l6, t7);
    lemma_split_cons(l5, t6);
    lemma_split_cons(l4, t5);
    lemma_split_cons(l3, t4);
    lemma_split_cons(l2, t3);
    lemma_split_cons(l1, t2);
    lemma_split_cons(l0, t1);
    assert(split_lines_spec(t0) =~= ls);
}

// Every reply line opens a property, so unfolding leaves them unchanged.
#[verifier::rlimit(100)]
proof fn lemma_reply_unfold(
    uid: Seq<u8>,
    organizer: Seq<u8>,
    sequence: u32,
    d: Decision,
    sender: Seq<u8>,
    dtstamp: Seq<u8>,
    version: Seq<u8>,
)
    requires
        has_prefix(organizer, organizer_prefix()),
    ensures
        unfold_spec(reply_lines(uid, organizer, sequence, d, sender, dtstamp, version))
            == reply_lines(uid, organizer, sequence, d, sender, dtstamp, version),
{
    let ls = reply_lines(uid, organizer, sequence, d, sender, dtstamp, version);
    lemma_prefix_head(organizer, organizer_prefix());
    assert((prodid_head() + version)[0] == prodid_head()[0]);
    assert((uid_prefix() + uid)[0] == uid_prefix()[0]);
    assert((attendee_head() + partstat_text(d) + attendee_mid() + sender)[0] == attendee_head()[0]);
    assert((dtstamp_prefix() + dtstamp)[0] == dtstamp_prefix()[0]);
    assert((sequence_prefix() + dec_digits(sequence as nat + 1))[0] == sequence_prefix()[0]);
    assert forall|i: int| 0 <= i < ls.len() implies starts_property(#[trigger] ls[i]) by {
        assert(is_upper_byte(ls[i][0]));
    }
    lemma_unfold_identity(ls);
}

// Field extraction on the reply lines finds the UID, ORGANIZER and
// SEQUENCE lines and reads back the built values.
#[verifier::rlimit(100)]
proof fn lemma_reply_extract(
    uid: Seq<u8>,
    organizer: Seq<u8>,
    sequence: u32,
    d: Decision,
    sender: Seq<u8>,
    dtstamp: Seq<u8>,
    version: Seq<u8>,
)
    requires
        has_prefix(organizer, organizer_prefix()),
        sequence < u32::MAX,
    ensures
        ({
            let ls = reply_lines(uid, organizer, sequence, d, sender, dtstamp, version);
            &&& uid_of(ls) == uid
            &&& organizer_of(ls) == organizer
            &&& sequence_of(ls) as nat == sequence as nat + 1
        }),
{
    let n: nat = sequence as nat + 1;
    let ls = reply_lines(uid, organizer, sequence, d, sender, dtstamp, version);
    let l1 = prodid_head() + version;
    let l5 = uid_prefix() + uid;
    let l6 = attendee_head() + partstat_text(d) + attendee_mid() + sender;
    let l9 = sequence_prefix() + dec_digits(n);
    lemma_prefix_head(organizer, organizer_prefix());
    assert(l1[0] == prodid_head()[0]);
    assert(l5[0] == uid_prefix()[0]);
    assert(l6[0] == attendee_head()[0]);
    assert((dtstamp_prefix() + dtstamp)[0] == dtstamp_prefix()[0]);
    assert(l9[0] == sequence_prefix()[0]);

    assert(has_prefix(l5, uid_prefix())) by {
        assert(l5.subrange(0, uid_prefix().len() as int) =~= uid_prefix());
    }
    lemma_not_prefix_head(begin_vcalendar_line(), uid_prefix());
    lemma_not_prefix_head(l1, uid_prefix());
    lemma_not_prefix_head(version_line(), uid_prefix());
    lemma_not_prefix_head(method_line(), uid_prefix());
    lemma_not_prefix_head(begin_vevent_line(), uid_prefix());
    assert forall|j: int| 0 <= j < 5 implies !has_prefix(#[trigger] ls[j], uid_prefix()) by {}
    lemma_first_with_prefix_at(ls, uid_prefix(), 5);
    assert(uid_of(ls) == l5.skip(uid_prefix().len() as int));
    assert(l5.skip(uid_prefix().len() as int) =~= uid);

    lemma_not_prefix_head(begin_vcalendar_line(), organizer_prefix());
    lemma_not_prefix_head(l1, organizer_prefix());
    lemma_not_prefix_head(version_line(), organizer_prefix());
    lemma_not_prefix_head(method_line(), organizer_prefix());
    lemma_not_prefix_head(begin_vevent_line(), organizer_prefix());
    lemma_not_prefix_head(l5, organizer_prefix());
    lemma_not_prefix_head(l6, organizer_prefix());
    assert forall|j: int| 0 <= j < 7 implies !has_prefix(#[trigger] ls[j], organizer_prefix()) by {}
    lemma_first_with_prefix_at(ls, organizer_prefix(), 7);
    assert(organizer_of(ls) == organizer);

    assert(has_prefix(l9, sequence_prefix())) by {
        assert(l9.subrange(0, sequence_prefix().len() as int) =~= sequence_prefix());
    }
    lemma_not_prefix_head(begin_vcalendar_line(), sequence_prefix());
    lemma_not_prefix_head(l1, sequence_prefix());
    lemma_not_prefix_head(version_line(), sequence_prefix());
    lemma_not_prefix_head(method_line(), sequence_prefix());
    lemma_not_prefix_head(begin_vevent_line(), sequence_prefix());
    lemma_not_prefix_head(l5, sequence_prefix());
    lemma_not_prefix_head(l6, sequence_prefix());
    lemma_not_prefix_head(organizer, sequence_prefix());
    lemma_not_prefix_head(dtstamp_prefix() + dtstamp, sequence_prefix());
    assert forall|j: int| 0 <= j < 9 implies !has_prefix(#[trigger] ls[j], sequence_prefix()) by {}
    lemma_first_with_prefix_at(ls, sequence_prefix(), 9);
    assert(l9.skip(sequence_prefix().len() as int) =~= dec_digits(n));
    lemma_parse_dec(n);
    assert(sequence_of(ls) == n as u32);
}

/// Parsing the text the reply builder produces recovers the values it was
/// built from: splitting the reply text into physical lines, unfolding
/// them, and extracting fields yields exactly the UID and the ORGANIZER
/// line the reply was built with, and the sequence number stamped into the
/// reply, which is the invitation's sequence number plus one. The values
/// must be single-line, as every logical property value is, the ORGANIZER
/// line must carry its property name, and the incremented sequence number
/// must still be representable.
pub proof fn lemma_reply_round_trip(
    uid: Seq<u8>,
    organizer: Seq<u8>,
    sequence: u32,
    d: Decision,
    sender: Seq<u8>,
    dtstamp: Seq<u8>,
    version: Seq<u8>,
)
    requires
        line_clean(uid),
        line_clean(organizer),
        line_clean(sender),
        line_clean(dtstamp),
        line_clean(version),
        has_prefix(organizer, organizer_prefix()),
        sequence < u32::MAX,
    ensures
        ({
            let logical = unfold_spec(
                split_lines_spec(
                    reply_text(uid, organizer, sequence, d, sender, dtstamp, version),
                ),
            );
            &&& uid_of(logical) == uid
            &&& organizer_of(logical) == organizer
            &&& sequence_of(logical) as nat == sequence as nat + 1
        }),
{
    lemma_reply_split(uid, organizer, sequence, d, sender, dtstamp, version);
    lemma_reply_unfold(uid, organizer, sequence, d, sender, dtstamp, version);
    lemma_reply_extract(uid, organizer, sequence, d, sender, dtstamp, version);
}

} // verus!
