//! Extraction of the invitation fields an RSVP reply needs from the
//! logical property lines: UID, ORGANIZER (kept as the whole line, to be
//! echoed verbatim), SEQUENCE (parsed, defaulting to zero), SUMMARY, and
//! the recipient address derived from the ORGANIZER line. For each field
//! only the first matching line in file order counts.

use vstd::prelude::*;

use crate::text::{
    after_last, after_last_byte, after_last_ws, after_last_ws_byte, after_prefix, contains,
    contains_seq, has_prefix, parse_u32, parse_u32_spec, remove_quotes, remove_quotes_spec,
    starts_with, trim, trim_bytes, views,
};

verus! {

pub open spec fn uid_prefix() -> Seq<u8> {
    seq!['U' as u8, 'I' as u8, 'D' as u8, ':' as u8]
}

pub open spec fn organizer_prefix() -> Seq<u8> {
    seq![
        'O' as u8,
        'R' as u8,
        'G' as u8,
        'A' as u8,
        'N' as u8,
        'I' as u8,
        'Z' as u8,
        'E' as u8,
        'R' as u8,
    ]
}

pub open spec fn sequence_prefix() -> Seq<u8> {
    seq![
        'S' as u8,
        'E' as u8,
        'Q' as u8,
        'U' as u8,
        'E' as u8,
        'N' as u8,
        'C' as u8,
        'E' as u8,
        ':' as u8,
    ]
}

pub open spec fn summary_prefix() -> Seq<u8> {
    seq!['S' as u8, 'U' as u8, 'M' as u8, 'M' as u8, 'A' as u8, 'R' as u8, 'Y' as u8, ':' as u8]
}

pub open spec fn mailto_marker() -> Seq<u8> {
    seq!['m' as u8, 'a' as u8, 'i' as u8, 'l' as u8, 't' as u8, 'o' as u8, ':' as u8]
}

pub(crate) fn uid_prefix_vec() -> (r: Vec<u8>)
    ensures
        r@ == uid_prefix(),
{
    let mut r: Vec<u8> = Vec::new();
    r.push('U' as u8);
    r.push('I' as u8);
    r.push('D' as u8);
    r.push(':' as u8);
    assert(r@ =~= uid_prefix());
    r
}

fn organizer_prefix_vec() -> (r: Vec<u8>)
    ensures
        r@ == organizer_prefix(),
{
    let mut r: Vec<u8> = Vec::new();
    r.push('O' as u8);
    r.push('R' as u8);
    r.push('G' as u8);
    r.push('A' as u8);
    r.push('N' as u8);
    r.push('I' as u8);
    r.push('Z' as u8);
    r.push('E' as u8);
    r.push('R' as u8);
    assert(r@ =~= organizer_prefix());
    r
}

pub(crate) fn sequence_prefix_vec() -> (r: Vec<u8>)
    ensures
        r@ == sequence_prefix(),
{
    let mut r: Vec<u8> = Vec::new();
    r.push('S' as u8);
    r.push('E' as u8);
    r.push('Q' as u8);
    r.push('U' as u8);
    r.push('E' as u8);
    r.push('N' as u8);
    r.push('C' as u8);
    r.push('E' as u8);
    r.push(':' as u8);
    assert(r@ =~= sequence_prefix());
    r
}

fn summary_prefix_vec() -> (r: Vec<u8>)
    ensures
        r@ == summary_prefix(),
{
    let mut r: Vec<u8> = Vec::new();
    r.push('S' as u8);
    r.push('U' as u8);
    r.push('M' as u8);
    r.push('M' as u8);
    r.push('A' as u8);
    r.push('R' as u8);
    r.push('Y' as u8);
    r.push(':' as u8);
    assert(r@ =~= summary_prefix());
    r
}

fn mailto_marker_vec() -> (r: Vec<u8>)
    ensures
        r@ == mailto_marker(),
{
    let mut r: Vec<u8> = Vec::new();
    r.push('m' as u8);
    r.push('a' as u8);
    r.push('i' as u8);
    r.push('l' as u8);
    r.push('t' as u8);
    r.push('o' as u8);
    r.push(':' as u8);
    assert(r@ =~= mailto_marker());
    r
}

/// The first of the logical lines that carries the prefix `p`, if any.
pub open spec fn first_with_prefix(lines: Seq<Seq<u8>>, p: Seq<u8>) -> Option<Seq<u8>>
    decreases lines.len(),
{
    if lines.len() == 0 {
        None
    } else if has_prefix(lines[0], p) {
        Some(lines[0])
    } else {
        first_with_prefix(lines.drop_first(), p)
    }
}

/// The UID value: the first UID line with its prefix removed; empty when
/// there is none.
pub open spec fn uid_of(lines: Seq<Seq<u8>>) -> Seq<u8> {
    match first_with_prefix(lines, uid_prefix()) {
        Some(l) => after_prefix(l, uid_prefix()),
        None => Seq::empty(),
    }
}

/// The ORGANIZER property: the whole first ORGANIZER line, kept verbatim;
/// empty when there is none.
pub open spec fn organizer_of(lines: Seq<Seq<u8>>) -> Seq<u8> {
    match first_with_prefix(lines, organizer_prefix()) {
        Some(l) => l,
        None => Seq::empty(),
    }
}

/// The SUMMARY value: the first SUMMARY line with its prefix removed;
/// empty when there is none.
pub open spec fn summary_of(lines: Seq<Seq<u8>>) -> Seq<u8> {
    match first_with_prefix(lines, summary_prefix()) {
        Some(l) => after_prefix(l, summary_prefix()),
        None => Seq::empty(),
    }
}

/// The SEQUENCE value read from the first SEQUENCE line; zero when the
/// line is absent or its value is not an unsigned decimal number.
pub open spec fn sequence_of(lines: Seq<Seq<u8>>) -> u32 {
    match first_with_prefix(lines, sequence_prefix()) {
        Some(l) => match parse_u32_spec(after_prefix(l, sequence_prefix())) {
            Some(v) => v,
            None => 0,
        },
        None => 0,
    }
}

/// The reply recipient: when the ORGANIZER line holds a mailto URI, the
/// trimmed text after its last colon; empty otherwise.
pub open spec fn recipient_of(lines: Seq<Seq<u8>>) -> Seq<u8> {
    let org = organizer_of(lines);
    if contains_seq(org, mailto_marker()) {
        trim_bytes(after_last_byte(org, ':' as u8))
    } else {
        Seq::empty()
    }
}

/// The fields of one invitation, as the reply builder consumes them.
pub struct InvitationFields {
    /// Value of the UID property.
    pub uid: Vec<u8>,
    /// The whole ORGANIZER line, echoed verbatim in the reply.
    pub organizer: Vec<u8>,
    /// Parsed SEQUENCE value; the reply carries this number plus one.
    pub sequence: u32,
    /// Value of the SUMMARY property: the event title.
    pub summary: Vec<u8>,
    /// Address derived from the ORGANIZER mailto URI.
    pub recipient: Vec<u8>,
}

fn find_first_with_prefix(lines: &Vec<Vec<u8>>, p: &Vec<u8>) -> (r: Option<usize>)
    ensures
        match r {
            Some(i) => i < lines@.len() && has_prefix(lines@[i as int]@, p@)
                && first_with_prefix(views(lines@), p@) == Some(lines@[i as int]@),
            None => first_with_prefix(views(lines@), p@) is None,
        },
{
    let n = lines.len();
    let mut i: usize = 0;
    assert(views(lines@).skip(0) =~= views(lines@));
    while i < n
        invariant
            0 <= i <= n,
            n == lines@.len(),
            first_with_prefix(views(lines@), p@) == first_with_prefix(
                views(lines@).skip(i as int),
                p@,
            ),
        decreases n - i,
    {
        if starts_with(&lines[i], p) {
            assert(views(lines@).skip(i as int)[0] == lines@[i as int]@);
            return Some(i);
        }
        assert(views(lines@).skip(i as int)[0] == lines@[i as int]@);
        assert(views(lines@).skip(i as int).drop_first() =~= views(lines@).skip(i as int + 1));
        i = i + 1;
    }
    assert(views(lines@).skip(i as int) =~= Seq::<Seq<u8>>::empty());
    None
}

fn tail_from(s: &Vec<u8>, k: usize) -> (r: Vec<u8>)
    requires
        k <= s@.len(),
    ensures
        r@ == s@.skip(k as int),
{
    let mut r: Vec<u8> = Vec::new();
    let n = s.len();
    let mut i: usize = k;
    assert(Seq::<u8>::empty() =~= s@.subrange(k as int, k as int));
    while i < n
        invariant
            k <= i <= n,
            n == s@.len(),
            r@ == s@.subrange(k as int, i as int),
        decreases n - i,
    {
        r.push(s[i]);
        assert(r@ =~= s@.subrange(k as int, i as int + 1));
        i = i + 1;
    }
    assert(r@ =~= s@.skip(k as int));
    r
}

/// Scan the logical lines for the four properties of interest and derive
/// the reply recipient; for each property the first matching line wins.
pub fn extract_fields(lines: &Vec<Vec<u8>>) -> (f: InvitationFields)
    ensures
        f.uid@ == uid_of(views(lines@)),
        f.organizer@ == organizer_of(views(lines@)),
        f.sequence == sequence_of(views(lines@)),
        f.summary@ == summary_of(views(lines@)),
        f.recipient@ == recipient_of(views(lines@)),
{
    let up = uid_prefix_vec();
    let uid = match find_first_with_prefix(lines, &up) {
        Some(i) => tail_from(&lines[i], up.len()),
        None => Vec::new(),
    };
    let op = organizer_prefix_vec();
    let organizer = match find_first_with_prefix(lines, &op) {
        Some(i) => {
            let copied = lines[i].clone();
            assert(copied@ =~= lines@[i as int]@);
            copied
        },
        None => Vec::new(),
    };
    let mm = mailto_marker_vec();
    let recipient = if contains(&organizer, &mm) {
        let tail = after_last(&organizer, ':' as u8);
        trim(&tail)
    } else {
        Vec::new()
    };
    let sp = sequence_prefix_vec();
    let sequence: u32 = match find_first_with_prefix(lines, &sp) {
        Some(i) => {
            let value = tail_from(&lines[i], sp.len());
            match parse_u32(&value) {
                Some(v) => v,
                None => 0,
            }
        },
        None => 0,
    };
    let sm = summary_prefix_vec();
    let summary = match find_first_with_prefix(lines, &sm) {
        Some(i) => tail_from(&lines[i], sm.len()),
        None => Vec::new(),
    };
    InvitationFields { uid, organizer, sequence, summary, recipient }
}

/// The sender address as read out of the mail client's answer about its
/// configured origin: the last whitespace-delimited token of the answer
/// (surrounding whitespace does not count), with every double-quote
/// removed.
pub open spec fn sender_of(answer: Seq<u8>) -> Seq<u8> {
    remove_quotes_spec(after_last_ws_byte(trim_bytes(answer)))
}

/// Read the configured sender address out of the mail client's answer.
pub fn parse_sender_address(answer: &Vec<u8>) -> (r: Vec<u8>)
    ensures
        r@ == sender_of(answer@),
{
    let trimmed = trim(answer);
    let token = after_last_ws(&trimmed);
    remove_quotes(&token)
}

} // verus!
