//! The participation decision and the RSVP reply object: the decision
//! parsed from one line of interactive input, the calendar-store action it
//! asks for, the mail subject it yields, and the serialized
//! VCALENDAR/VEVENT reply text.

use vstd::prelude::*;

use crate::fields::{sequence_prefix, sequence_prefix_vec, uid_prefix, uid_prefix_vec, InvitationFields};
use crate::text::{dec_digits, trim, trim_bytes, u64_to_dec};

verus! {

/// The participation decision of the invited user.
#[derive(Clone, Copy, PartialEq, Eq, Structural, Debug)]
pub enum Decision {
    Accepted,
    Tentative,
    Declined,
}

/// The calendar-store side effect a decision asks for: accepting and
/// tentatively accepting import the event, declining removes it.
#[derive(Clone, Copy, PartialEq, Eq, Structural, Debug)]
pub enum CalendarAction {
    Import,
    Remove,
}

pub open spec fn action_of(d: Decision) -> CalendarAction {
    match d {
        Decision::Accepted => CalendarAction::Import,
        Decision::Tentative => CalendarAction::Import,
        Decision::Declined => CalendarAction::Remove,
    }
}

/// The calendar-store action that carries out `d`.
pub fn calendar_action(d: Decision) -> (a: CalendarAction)
    ensures
        a == action_of(d),
{
    match d {
        Decision::Accepted => CalendarAction::Import,
        Decision::Tentative => CalendarAction::Import,
        Decision::Declined => CalendarAction::Remove,
    }
}

/// The decision named by one line of interactive input: the first
/// character of the trimmed line, matched case-insensitively against
/// a(ccept), t(entative) and d(ecline); anything else is no decision.
pub open spec fn decision_of(input: Seq<u8>) -> Option<Decision> {
    let t = trim_bytes(input);
    if t.len() == 0 {
        None
    } else if t[0] == ('a' as u8) || t[0] == ('A' as u8) {
        Some(Decision::Accepted)
    } else if t[0] == ('t' as u8) || t[0] == ('T' as u8) {
        Some(Decision::Tentative)
    } else if t[0] == ('d' as u8) || t[0] == ('D' as u8) {
        Some(Decision::Declined)
    } else {
        None
    }
}

/// Read a participation decision from one line of interactive input.
pub fn parse_decision(input: &Vec<u8>) -> (r: Option<Decision>)
    ensures
        r == decision_of(input@),
{
    let t = trim(input);
    if t.len() == 0 {
        return None;
    }
    let c = t[0];
    if c == ('a' as u8) || c == ('A' as u8) {
        Some(Decision::Accepted)
    } else if c == ('t' as u8) || c == ('T' as u8) {
        Some(Decision::Tentative)
    } else if c == ('d' as u8) || c == ('D' as u8) {
        Some(Decision::Declined)
    } else {
        None
    }
}

pub open spec fn begin_vcalendar_line() -> Seq<u8> {
    seq!['B' as u8, 'E' as u8, 'G' as u8, 'I' as u8, 'N' as u8, ':' as u8, 'V' as u8, 'C' as u8, 'A' as u8, 'L' as u8, 'E' as u8, 'N' as u8, 'D' as u8, 'A' as u8, 'R' as u8]
}

fn begin_vcalendar_line_vec() -> (r: Vec<u8>)
    ensures
        r@ == begin_vcalendar_line(),
{
    let mut r: Vec<u8> = Vec::new();
    r.push('B' as u8);
    r.push('E' as u8);
    r.push('G' as u8);
    r.push('I' as u8);
    r.push('N' as u8);
    r.push(':' as u8);
    r.push('V' as u8);
    r.push('C' as u8);
    r.push('A' as u8);
    r.push('L' as u8);
    r.push('E' as u8);
    r.push('N' as u8);
    r.push('D' as u8);
    r.push('A' as u8);
    r.push('R' as u8);
    assert(r@ =~= begin_vcalendar_line());
    r
}

pub open spec fn prodid_head() -> Seq<u8> {
    seq!['P' as u8, 'R' as u8, 'O' as u8, 'D' as u8, 'I' as u8, 'D' as u8, ':' as u8, 'R' as u8, 'S' as u8, 'V' as u8, 'P' as u8, '-' as u8, 'v' as u8]
}

fn prodid_head_vec() -> (r: Vec<u8>)
    ensures
        r@ == prodid_head(),
{
    let mut r: Vec<u8> = Vec::new();
    r.push('P' as u8);
    r.push('R' as u8);
    r.push('O' as u8);
    r.push('D' as u8);
    r.push('I' as u8);
    r.push('D' as u8);
    r.push(':' as u8);
    r.push('R' as u8);
    r.push('S' as u8);
    r.push('V' as u8);
    r.push('P' as u8);
    r.push('-' as u8);
    r.push('v' as u8);
    assert(r@ =~= prodid_head());
    r
}

pub open spec fn version_line() -> Seq<u8> {
    seq!['V' as u8, 'E' as u8, 'R' as u8, 'S' as u8, 'I' as u8, 'O' as u8, 'N' as u8, ':' as u8, '2' as u8, '.' as u8, '0' as u8]
}

fn version_line_vec() -> (r: Vec<u8>)
    ensures
        r@ == version_line(),
{
    let mut r: Vec<u8> = Vec::new();
    r.push('V' as u8);
    r.push('E' as u8);
    r.push('R' as u8);
    r.push('S' as u8);
    r.push('I' as u8);
    r.push('O' as u8);
    r.push('N' as u8);
    r.push(':' as u8);
    r.push('2' as u8);
    r.push('.' as u8);
    r.push('0' as u8);
    assert(r@ =~= version_line());
    r
}

pub open spec fn method_line() -> Seq<u8> {
    seq!['M' as u8, 'E' as u8, 'T' as u8, 'H' as u8, 'O' as u8, 'D' as u8, ':' as u8, 'R' as u8, 'E' as u8, 'P' as u8, 'L' as u8, 'Y' as u8]
}

fn method_line_vec() -> (r: Vec<u8>)
    ensures
        r@ == method_line(),
{
    let mut r: Vec<u8> = Vec::new();
    r.push('M' as u8);
    r.push('E' as u8);
    r.push('T' as u8);
    r.push('H' as u8);
    r.push('O' as u8);
    r.push('D' as u8);
    r.push(':' as u8);
    r.push('R' as u8);
    r.push('E' as u8);
    r.push('P' as u8);
    r.push('L' as u8);
    r.push('Y' as u8);
    assert(r@ =~= method_line());
    r
}

pub open spec fn begin_vevent_line() -> Seq<u8> {
    seq!['B' as u8, 'E' as u8, 'G' as u8, 'I' as u8, 'N' as u8, ':' as u8, 'V' as u8, 'E' as u8, 'V' as u8, 'E' as u8, 'N' as u8, 'T' as u8]
}

fn begin_vevent_line_vec() -> (r: Vec<u8>)
    ensures
        r@ == begin_vevent_line(),
{
    let mut r: Vec<u8> = Vec::new();
    r.push('B' as u8);
    r.push('E' as u8);
    r.push('G' as u8);
    r.push('I' as u8);
    r.push('N' as u8);
    r.push(':' as u8);
    r.push('V' as u8);
    r.push('E' as u8);
    r.push('V' as u8);
    r.push('E' as u8);
    r.push('N' as u8);
    r.push('T' as u8);
    assert(r@ =~= begin_vevent_line());
    r
}

pub open spec fn attendee_head() -> Seq<u8> {
    seq!['A' as u8, 'T' as u8, 'T' as u8, 'E' as u8, 'N' as u8, 'D' as u8, 'E' as u8, 'E' as u8, ';' as u8, 'P' as u8, 'A' as u8, 'R' as u8, 'T' as u8, 'S' as u8, 'T' as u8, 'A' as u8, 'T' as u8, '=' as u8]
}

fn attendee_head_vec() -> (r: Vec<u8>)
    ensures
        r@ == attendee_head(),
{
    let mut r: Vec<u8> = Vec::new();
    r.push('A' as u8);
    r.push('T' as u8);
    r.push('T' as u8);
    r.push('E' as u8);
    r.push('N' as u8);
    r.push('D' as u8);
    r.push('E' as u8);
    r.push('E' as u8);
    r.push(';' as u8);
    r.push('P' as u8);
    r.push('A' as u8);
    r.push('R' as u8);
    r.push('T' as u8);
    r.push('S' as u8);
    r.push('T' as u8);
    r.push('A' as u8);
    r.push('T' as u8);
    r.push('=' as u8);
    assert(r@ =~= attendee_head());
    r
}

pub open spec fn attendee_mid() -> Seq<u8> {
    seq![';' as u8, 'R' as u8, 'S' as u8, 'V' as u8, 'P' as u8, '=' as u8, 'F' as u8, 'A' as u8, 'L' as u8, 'S' as u8, 'E' as u8, ':' as u8, 'm' as u8, 'a' as u8, 'i' as u8, 'l' as u8, 't' as u8, 'o' as u8, ':' as u8]
}

fn attendee_mid_vec() -> (r: Vec<u8>)
    ensures
        r@ == attendee_mid(),
{
    let mut r: Vec<u8> = Vec::new();
    r.push(';' as u8);
    r.push('R' as u8);
    r.push('S' as u8);
    r.push('V' as u8);
    r.push('P' as u8);
    r.push('=' as u8);
    r.push('F' as u8);
    r.push('A' as u8);
    r.push('L' as u8);
    r.push('S' as u8);
    r.push('E' as u8);
    r.push(':' as u8);
    r.push('m' as u8);
    r.push('a' as u8);
    r.push('i' as u8);
    r.push('l' as u8);
    r.push('t' as u8);
    r.push('o' as u8);
    r.push(':' as u8);
    assert(r@ =~= attendee_mid());
    r
}

pub open spec fn dtstamp_prefix() -> Seq<u8> {
    seq!['D' as u8, 'T' as u8, 'S' as u8, 'T' as u8, 'A' as u8, 'M' as u8, 'P' as u8, ':' as u8]
}

fn dtstamp_prefix_vec() -> (r: Vec<u8>)
    ensures
        r@ == dtstamp_prefix(),
{
    let mut r: Vec<u8> = Vec::new();
    r.push('D' as u8);
    r.push('T' as u8);
    r.push('S' as u8);
    r.push('T' as u8);
    r.push('A' as u8);
    r.push('M' as u8);
    r.push('P' as u8);
    r.push(':' as u8);
    assert(r@ =~= dtstamp_prefix());
    r
}

pub open spec fn end_vevent_line() -> Seq<u8> {
    seq!['E' as u8, 'N' as u8, 'D' as u8, ':' as u8, 'V' as u8, 'E' as u8, 'V' as u8, 'E' as u8, 'N' as u8, 'T' as u8]
}

fn end_vevent_line_vec() -> (r: Vec<u8>)
    ensures
        r@ == end_vevent_line(),
{
    let mut r: Vec<u8> = Vec::new();
    r.push('E' as u8);
    r.push('N' as u8);
    r.push('D' as u8);
    r.push(':' as u8);
    r.push('V' as u8);
    r.push('E' as u8);
    r.push('V' as u8);
    r.push('E' as u8);
    r.push('N' as u8);
    r.push('T' as u8);
    assert(r@ =~= end_vevent_line());
    r
}

pub open spec fn end_vcalendar_line() -> Seq<u8> {
    seq!['E' as u8, 'N' as u8, 'D' as u8, ':' as u8, 'V' as u8, 'C' as u8, 'A' as u8, 'L' as u8, 'E' as u8, 'N' as u8, 'D' as u8, 'A' as u8, 'R' as u8]
}

fn end_vcalendar_line_vec() -> (r: Vec<u8>)
    ensures
        r@ == end_vcalendar_line(),
{
    let mut r: Vec<u8> = Vec::new();
    r.push('E' as u8);
    r.push('N' as u8);
    r.push('D' as u8);
    r.push(':' as u8);
    r.push('V' as u8);
    r.push('C' as u8);
    r.push('A' as u8);
    r.push('L' as u8);
    r.push('E' as u8);
    r.push('N' as u8);
    r.push('D' as u8);
    r.push('A' as u8);
    r.push('R' as u8);
    assert(r@ =~= end_vcalendar_line());
    r
}

pub open spec fn accepted_text() -> Seq<u8> {
    seq!['A' as u8, 'C' as u8, 'C' as u8, 'E' as u8, 'P' as u8, 'T' as u8, 'E' as u8, 'D' as u8]
}

fn accepted_text_vec() -> (r: Vec<u8>)
    ensures
        r@ == accepted_text(),
{
    let mut r: Vec<u8> = Vec::new();
    r.push('A' as u8);
    r.push('C' as u8);
    r.push('C' as u8);
    r.push('E' as u8);
    r.push('P' as u8);
    r.push('T' as u8);
    r.push('E' as u8);
    r.push('D' as u8);
    assert(r@ =~= accepted_text());
    r
}

pub open spec fn tentative_text() -> Seq<u8> {
    seq!['T' as u8, 'E' as u8, 'N' as u8, 'T' as u8, 'A' as u8, 'T' as u8, 'I' as u8, 'V' as u8, 'E' as u8]
}

fn tentative_text_vec() -> (r: Vec<u8>)
    ensures
        r@ == tentative_text(),
{
    let mut r: Vec<u8> = Vec::new();
    r.push('T' as u8);
    r.push('E' as u8);
    r.push('N' as u8);
    r.push('T' as u8);
    r.push('A' as u8);
    r.push('T' as u8);
    r.push('I' as u8);
    r.push('V' as u8);
    r.push('E' as u8);
    assert(r@ =~= tentative_text());
    r
}

pub open spec fn declined_text() -> Seq<u8> {
    seq!['D' as u8, 'E' as u8, 'C' as u8, 'L' as u8, 'I' as u8, 'N' as u8, 'E' as u8, 'D' as u8]
}

fn declined_text_vec() -> (r: Vec<u8>)
    ensures
        r@ == declined_text(),
{
    let mut r: Vec<u8> = Vec::new();
    r.push('D' as u8);
    r.push('E' as u8);
    r.push('C' as u8);
    r.push('L' as u8);
    r.push('I' as u8);
    r.push('N' as u8);
    r.push('E' as u8);
    r.push('D' as u8);
    assert(r@ =~= declined_text());
    r
}

pub open spec fn accepted_subject_head() -> Seq<u8> {
    seq!['A' as u8, 'c' as u8, 'c' as u8, 'e' as u8, 'p' as u8, 't' as u8, 'e' as u8, 'd' as u8, ':' as u8, ' ' as u8]
}

fn accepted_subject_head_vec() -> (r: Vec<u8>)
    ensures
        r@ == accepted_subject_head(),
{
    let mut r: Vec<u8> = Vec::new();
    r.push('A' as u8);
    r.push('c' as u8);
    r.push('c' as u8);
    r.push('e' as u8);
    r.push('p' as u8);
    r.push('t' as u8);
    r.push('e' as u8);
    r.push('d' as u8);
    r.push(':' as u8);
    r.push(' ' as u8);
    assert(r@ =~= accepted_subject_head());
    r
}

pub open spec fn tentative_subject_head() -> Seq<u8> {
    seq!['T' as u8, 'e' as u8, 'n' as u8, 't' as u8, 'a' as u8, 't' as u8, 'i' as u8, 'v' as u8, 'e' as u8, 'l' as u8, 'y' as u8, ' ' as u8, 'A' as u8, 'c' as u8, 'c' as u8, 'e' as u8, 'p' as u8, 't' as u8, 'e' as u8, 'd' as u8, ':' as u8, ' ' as u8]
}

fn tentative_subject_head_vec() -> (r: Vec<u8>)
    ensures
        r@ == tentative_subject_head(),
{
    let mut r: Vec<u8> = Vec::new();
    r.push('T' as u8);
    r.push('e' as u8);
    r.push('n' as u8);
    r.push('t' as u8);
    r.push('a' as u8);
    r.push('t' as u8);
    r.push('i' as u8);
    r.push('v' as u8);
    r.push('e' as u8);
    r.push('l' as u8);
    r.push('y' as u8);
    r.push(' ' as u8);
    r.push('A' as u8);
    r.push('c' as u8);
    r.push('c' as u8);
    r.push('e' as u8);
    r.push('p' as u8);
    r.push('t' as u8);
    r.push('e' as u8);
    r.push('d' as u8);
    r.push(':' as u8);
    r.push(' ' as u8);
    assert(r@ =~= tentative_subject_head());
    r
}

pub open spec fn declined_subject_head() -> Seq<u8> {
    seq!['D' as u8, 'e' as u8, 'c' as u8, 'l' as u8, 'i' as u8, 'n' as u8, 'e' as u8, 'd' as u8, ':' as u8, ' ' as u8]
}

fn declined_subject_head_vec() -> (r: Vec<u8>)
    ensures
        r@ == declined_subject_head(),
{
    let mut r: Vec<u8> = Vec::new();
    r.push('D' as u8);
    r.push('e' as u8);
    r.push('c' as u8);
    r.push('l' as u8);
    r.push('i' as u8);
    r.push('n' as u8);
    r.push('e' as u8);
    r.push('d' as u8);
    r.push(':' as u8);
    r.push(' ' as u8);
    assert(r@ =~= declined_subject_head());
    r
}

/// The PARTSTAT parameter value of a decision.
pub open spec fn partstat_text(d: Decision) -> Seq<u8> {
    match d {
        Decision::Accepted => accepted_text(),
        Decision::Tentative => tentative_text(),
        Decision::Declined => declined_text(),
    }
}

/// The PARTSTAT parameter value of `d`.
pub fn partstat_name(d: Decision) -> (r: Vec<u8>)
    ensures
        r@ == partstat_text(d),
{
    match d {
        Decision::Accepted => accepted_text_vec(),
        Decision::Tentative => tentative_text_vec(),
        Decision::Declined => declined_text_vec(),
    }
}

/// The mail subject announcing a decision on the event titled `summary`.
pub open spec fn subject_text(d: Decision, summary: Seq<u8>) -> Seq<u8> {
    match d {
        Decision::Accepted => accepted_subject_head() + summary,
        Decision::Tentative => tentative_subject_head() + summary,
        Decision::Declined => declined_subject_head() + summary,
    }
}

/// The mail subject announcing `d` on the event titled `summary`.
pub fn subject_line(d: Decision, summary: &Vec<u8>) -> (r: Vec<u8>)
    ensures
        r@ == subject_text(d, summary@),
{
    let mut r = match d {
        Decision::Accepted => accepted_subject_head_vec(),
        Decision::Tentative => tentative_subject_head_vec(),
        Decision::Declined => declined_subject_head_vec(),
    };
    push_bytes(&mut r, summary);
    r
}

pub open spec fn nl() -> Seq<u8> {
    seq!['\n' as u8]
}

/// The lines of the serialized reply object, in order: the VCALENDAR
/// preamble with the versioned product identifier and METHOD REPLY, then
/// one VEVENT carrying the invitation's UID, the ATTENDEE participation
/// status for the sender, the ORGANIZER line echoed verbatim, the
/// generation timestamp, and the invitation's sequence number plus one.
pub open spec fn reply_lines(
    uid: Seq<u8>,
    organizer: Seq<u8>,
    sequence: u32,
    d: Decision,
    sender: Seq<u8>,
    dtstamp: Seq<u8>,
    version: Seq<u8>,
) -> Seq<Seq<u8>> {
    seq![
        begin_vcalendar_line(),
        prodid_head() + version,
        version_line(),
        method_line(),
        begin_vevent_line(),
        uid_prefix() + uid,
        attendee_head() + partstat_text(d) + attendee_mid() + sender,
        organizer,
        dtstamp_prefix() + dtstamp,
        sequence_prefix() + dec_digits(sequence as nat + 1),
        end_vevent_line(),
        end_vcalendar_line(),
    ]
}

/// The serialized reply object: its lines joined by single newlines, with
/// no separator after the last.
pub open spec fn reply_text(
    uid: Seq<u8>,
    organizer: Seq<u8>,
    sequence: u32,
    d: Decision,
    sender: Seq<u8>,
    dtstamp: Seq<u8>,
    version: Seq<u8>,
) -> Seq<u8> {
    begin_vcalendar_line() + nl() + prodid_head() + version + nl() + version_line() + nl() + method_line()
        + nl() + begin_vevent_line() + nl() + uid_prefix() + uid + nl() + attendee_head()
        + partstat_text(d) + attendee_mid() + sender + nl() + organizer + nl() + dtstamp_prefix()
        + dtstamp + nl() + sequence_prefix() + dec_digits(sequence as nat + 1) + nl()
        + end_vevent_line() + nl() + end_vcalendar_line()
}

fn push_bytes(out: &mut Vec<u8>, s: &Vec<u8>)
    ensures
        final(out)@ == old(out)@ + s@,
{
    let n = s.len();
    let mut i: usize = 0;
    assert(old(out)@ + s@.subrange(0, 0) =~= old(out)@);
    while i < n
        invariant
            0 <= i <= n,
            n == s@.len(),
            out@ == old(out)@ + s@.subrange(0, i as int),
        decreases n - i,
    {
        out.push(s[i]);
        assert((old(out)@ + s@.subrange(0, i as int)).push(s@[i as int]) =~= old(out)@
            + s@.subrange(0, i as int + 1));
        i = i + 1;
    }
    assert(old(out)@ + s@.subrange(0, n as int) =~= old(out)@ + s@);
}

fn push_nl(out: &mut Vec<u8>)
    ensures
        final(out)@ == old(out)@ + nl(),
{
    out.push('\n' as u8);
    assert(out@ =~= old(out)@ + nl());
}

/// Serialize the reply object for the given invitation fields, decision,
/// sender address, generation timestamp and responder version.
pub fn build_reply(
    fields: &InvitationFields,
    decision: Decision,
    sender: &Vec<u8>,
    dtstamp: &Vec<u8>,
    version: &Vec<u8>,
) -> (r: Vec<u8>)
    ensures
        r@ == reply_text(
            fields.uid@,
            fields.organizer@,
            fields.sequence,
            decision,
            sender@,
            dtstamp@,
            version@,
        ),
{
    let mut out = begin_vcalendar_line_vec();
    push_nl(&mut out);
    let piece = prodid_head_vec();
    push_bytes(&mut out, &piece);
    push_bytes(&mut out, version);
    push_nl(&mut out);
    let piece = version_line_vec();
    push_bytes(&mut out, &piece);
    push_nl(&mut out);
    let piece = method_line_vec();
    push_bytes(&mut out, &piece);
    push_nl(&mut out);
    let piece = begin_vevent_line_vec();
    push_bytes(&mut out, &piece);
    push_nl(&mut out);
    let piece = uid_prefix_vec();
    push_bytes(&mut out, &piece);
    push_bytes(&mut out, &fields.uid);
    push_nl(&mut out);
    let piece = attendee_head_vec();
    push_bytes(&mut out, &piece);
    let piece = partstat_name(decision);
    push_bytes(&mut out, &piece);
    let piece = attendee_mid_vec();
    push_bytes(&mut out, &piece);
    push_bytes(&mut out, sender);
    push_nl(&mut out);
    push_bytes(&mut out, &fields.organizer);
    push_nl(&mut out);
    let piece = dtstamp_prefix_vec();
    push_bytes(&mut out, &piece);
    push_bytes(&mut out, dtstamp);
    push_nl(&mut out);
    let piece = sequence_prefix_vec();
    push_bytes(&mut out, &piece);
    let piece = u64_to_dec((fields.sequence as u64) + 1);
    push_bytes(&mut out, &piece);
    push_nl(&mut out);
    let piece = end_vevent_line_vec();
    push_bytes(&mut out, &piece);
    push_nl(&mut out);
    let piece = end_vcalendar_line_vec();
    push_bytes(&mut out, &piece);
    assert(out@ =~= reply_text(
        fields.uid@,
        fields.organizer@,
        fields.sequence,
        decision,
        sender@,
        dtstamp@,
        version@,
    ));
    out
}

/// No line-break byte anywhere in the value, as iCalendar property values
/// and logical lines have it.
pub open spec fn line_clean(s: Seq<u8>) -> bool {
    forall|i: int| 0 <= i < s.len() ==> s[i] != ('\n' as u8) && s[i] != ('\r' as u8)
}

/// Relies on chrono::Utc::now and DateTime::format with the strftime
/// pattern "%Y%m%dT%H%M%SZ": the formatted timestamp is nonempty and made
/// of digits and the letters T and Z (with a sign only for years out of
/// the common era), so it never holds a line break. chrono panics when
/// the system clock lies outside the range it can represent; the run then
/// dies, as every failure in this program does.
#[verifier::external_body]
fn utc_timestamp_basic() -> (r: Vec<u8>)
    ensures
        r@.len() > 0,
        line_clean(r@),
{
    chrono::Utc::now().format("%Y%m%dT%H%M%SZ").to_string().into_bytes()
}

/// Serialize the reply object stamped with the current UTC time in the
/// RFC 5545 basic format.
pub fn build_reply_now(
    fields: &InvitationFields,
    decision: Decision,
    sender: &Vec<u8>,
    version: &Vec<u8>,
) -> (r: Vec<u8>)
    ensures
        exists|ts: Seq<u8>|
            ts.len() > 0 && line_clean(ts) && r@ == reply_text(
                fields.uid@,
                fields.organizer@,
                fields.sequence,
                decision,
                sender@,
                ts,
                version@,
            ),
{
    let dtstamp = utc_timestamp_basic();
    build_reply(fields, decision, sender, &dtstamp, version)
}

} // verus!
