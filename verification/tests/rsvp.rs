use ics_rsvp::fields::{extract_fields, parse_sender_address};
use ics_rsvp::reply::{
    build_reply, build_reply_now, calendar_action, parse_decision, partstat_name, subject_line,
    CalendarAction, Decision,
};
use ics_rsvp::text::{after_last, contains, parse_u32, split_lines, starts_with, trim, u64_to_dec};
use ics_rsvp::unfold::{logical_lines, unfold};

fn lines(raw: &[&str]) -> Vec<Vec<u8>> {
    raw.iter().map(|l| l.as_bytes().to_vec()).collect()
}

fn text(lines: &[Vec<u8>]) -> Vec<String> {
    lines
        .iter()
        .map(|l| String::from_utf8(l.clone()).unwrap())
        .collect()
}

#[test]
fn unfolding_is_identity_on_single_line_properties() {
    let input = lines(&["BEGIN:VCALENDAR", "UID:abc-123", "SUMMARY:Team Sync", "END:VCALENDAR"]);
    let out = unfold(&input);
    assert_eq!(out, input);
}

#[test]
fn unfolding_reassembles_a_folded_property() {
    let input = lines(&["SUMMARY:Quarterly", "  planning ", "\treview"]);
    let out = unfold(&input);
    assert_eq!(text(&out), vec!["SUMMARY:Quarterlyplanningreview"]);
}

#[test]
fn unfolding_folds_only_until_the_next_property_start() {
    let input = lines(&["ORGANIZER;CN=Jane", " :mailto:jane@example.com", "SEQUENCE:2"]);
    let out = unfold(&input);
    assert_eq!(text(&out), vec!["ORGANIZER;CN=Jane:mailto:jane@example.com", "SEQUENCE:2"]);
}

#[test]
fn unfolding_tolerates_a_leading_continuation_without_a_property() {
    let input = lines(&[" stray continuation"]);
    let out = unfold(&input);
    assert_eq!(text(&out), vec!["stray continuation"]);
    let blank = lines(&["  ", "\t"]);
    assert!(unfold(&blank).is_empty());
}

#[test]
fn unfolding_empty_input_yields_no_lines() {
    let input: Vec<Vec<u8>> = Vec::new();
    let out = unfold(&input);
    assert!(out.is_empty());
}

#[test]
fn split_lines_handles_lf_crlf_and_trailing_newline() {
    let raw = b"UID:a\r\nSUMMARY:b\nEND:VCALENDAR\n".to_vec();
    let out = split_lines(&raw);
    assert_eq!(text(&out), vec!["UID:a", "SUMMARY:b", "END:VCALENDAR"]);
    let empty: Vec<u8> = Vec::new();
    assert!(split_lines(&empty).is_empty());
}

#[test]
fn extract_keeps_the_first_occurrence_of_each_field() {
    let input = lines(&["UID:first", "UID:second", "SUMMARY:one", "SUMMARY:two"]);
    let f = extract_fields(&input);
    assert_eq!(f.uid, b"first".to_vec());
    assert_eq!(f.summary, b"one".to_vec());
}

#[test]
fn sequence_absent_defaults_to_zero_and_reply_carries_one() {
    let input = lines(&["UID:u1", "SUMMARY:S"]);
    let f = extract_fields(&input);
    assert_eq!(f.sequence, 0);
    let reply = build_reply(&f, Decision::Accepted, &b"me@example.com".to_vec(), &b"20260101T000000Z".to_vec(), &b"1.0".to_vec());
    let reply_text = String::from_utf8(reply).unwrap();
    assert!(reply_text.contains("\nSEQUENCE:1\n"));
}

#[test]
fn sequence_non_numeric_defaults_to_zero_and_reply_carries_one() {
    let input = lines(&["UID:u1", "SEQUENCE:soon"]);
    let f = extract_fields(&input);
    assert_eq!(f.sequence, 0);
    let reply = build_reply(&f, Decision::Declined, &b"me@example.com".to_vec(), &b"20260101T000000Z".to_vec(), &b"1.0".to_vec());
    let reply_text = String::from_utf8(reply).unwrap();
    assert!(reply_text.contains("\nSEQUENCE:1\n"));
}

#[test]
fn sequence_five_replies_with_six() {
    let input = lines(&["UID:u1", "SEQUENCE:5"]);
    let f = extract_fields(&input);
    assert_eq!(f.sequence, 5);
    let reply = build_reply(&f, Decision::Tentative, &b"me@example.com".to_vec(), &b"20260101T000000Z".to_vec(), &b"1.0".to_vec());
    let reply_text = String::from_utf8(reply).unwrap();
    assert!(reply_text.contains("\nSEQUENCE:6\n"));
}

#[test]
fn organizer_mailto_yields_recipient_and_verbatim_echo() {
    let input = lines(&["ORGANIZER;CN=Jane:mailto:jane@example.com", "UID:u1"]);
    let f = extract_fields(&input);
    assert_eq!(f.recipient, b"jane@example.com".to_vec());
    assert_eq!(f.organizer, b"ORGANIZER;CN=Jane:mailto:jane@example.com".to_vec());
    let reply = build_reply(&f, Decision::Accepted, &b"me@example.com".to_vec(), &b"20260101T000000Z".to_vec(), &b"1.0".to_vec());
    let reply_text = String::from_utf8(reply).unwrap();
    assert!(reply_text.contains("\nORGANIZER;CN=Jane:mailto:jane@example.com\n"));
}

#[test]
fn organizer_without_mailto_leaves_recipient_empty() {
    let input = lines(&["ORGANIZER;CN=Jane", "UID:u1"]);
    let f = extract_fields(&input);
    assert!(f.recipient.is_empty());
    assert_eq!(f.organizer, b"ORGANIZER;CN=Jane".to_vec());
}

#[test]
fn accepted_subject_and_partstat() {
    let subject = subject_line(Decision::Accepted, &b"Team Sync".to_vec());
    assert_eq!(subject, b"Accepted: Team Sync".to_vec());
    let input = lines(&["UID:u1", "SUMMARY:Team Sync"]);
    let f = extract_fields(&input);
    let reply = build_reply(&f, Decision::Accepted, &b"me@example.com".to_vec(), &b"20260101T000000Z".to_vec(), &b"1.0".to_vec());
    let reply_text = String::from_utf8(reply).unwrap();
    assert!(reply_text.contains("ATTENDEE;PARTSTAT=ACCEPTED;RSVP=FALSE:mailto:me@example.com"));
}

#[test]
fn tentative_and_declined_subjects() {
    assert_eq!(
        subject_line(Decision::Tentative, &b"Standup".to_vec()),
        b"Tentatively Accepted: Standup".to_vec()
    );
    assert_eq!(
        subject_line(Decision::Declined, &b"Standup".to_vec()),
        b"Declined: Standup".to_vec()
    );
}

#[test]
fn partstat_names() {
    assert_eq!(partstat_name(Decision::Accepted), b"ACCEPTED".to_vec());
    assert_eq!(partstat_name(Decision::Tentative), b"TENTATIVE".to_vec());
    assert_eq!(partstat_name(Decision::Declined), b"DECLINED".to_vec());
}

#[test]
fn invalid_interactive_input_yields_no_decision() {
    assert_eq!(parse_decision(&b"x".to_vec()), None);
    assert_eq!(parse_decision(&b"".to_vec()), None);
    assert_eq!(parse_decision(&b"  \n".to_vec()), None);
    assert_eq!(parse_decision(&b"yes".to_vec()), None);
}

#[test]
fn decisions_parse_case_insensitively_from_the_first_character() {
    assert_eq!(parse_decision(&b"a\n".to_vec()), Some(Decision::Accepted));
    assert_eq!(parse_decision(&b"A".to_vec()), Some(Decision::Accepted));
    assert_eq!(parse_decision(&b" t ".to_vec()), Some(Decision::Tentative));
    assert_eq!(parse_decision(&b"D\n".to_vec()), Some(Decision::Declined));
    assert_eq!(parse_decision(&b"decline".to_vec()), Some(Decision::Declined));
}

#[test]
fn decisions_drive_the_calendar_action() {
    assert_eq!(calendar_action(Decision::Accepted), CalendarAction::Import);
    assert_eq!(calendar_action(Decision::Tentative), CalendarAction::Import);
    assert_eq!(calendar_action(Decision::Declined), CalendarAction::Remove);
}

#[test]
fn full_reply_text_is_exact() {
    let input = lines(&[
        "UID:evt-42",
        "ORGANIZER:mailto:jane@example.com",
        "SEQUENCE:5",
        "SUMMARY:Team Sync",
    ]);
    let f = extract_fields(&input);
    let reply = build_reply(&f, Decision::Accepted, &b"me@example.com".to_vec(), &b"20260101T120000Z".to_vec(), &b"1.0".to_vec());
    let expected = "BEGIN:VCALENDAR\n\
        PRODID:RSVP-v1.0\n\
        VERSION:2.0\n\
        METHOD:REPLY\n\
        BEGIN:VEVENT\n\
        UID:evt-42\n\
        ATTENDEE;PARTSTAT=ACCEPTED;RSVP=FALSE:mailto:me@example.com\n\
        ORGANIZER:mailto:jane@example.com\n\
        DTSTAMP:20260101T120000Z\n\
        SEQUENCE:6\n\
        END:VEVENT\n\
        END:VCALENDAR";
    assert_eq!(String::from_utf8(reply).unwrap(), expected);
}

#[test]
fn reply_round_trip_recovers_uid_sequence_and_organizer() {
    let input = lines(&[
        "UID:evt-42",
        "ORGANIZER;CN=Jane:mailto:jane@example.com",
        "SEQUENCE:5",
        "SUMMARY:Team Sync",
    ]);
    let f = extract_fields(&input);
    let reply = build_reply(&f, Decision::Accepted, &b"me@example.com".to_vec(), &b"20260101T120000Z".to_vec(), &b"1.0".to_vec());
    let back = extract_fields(&logical_lines(&reply));
    assert_eq!(back.uid, f.uid);
    assert_eq!(back.organizer, f.organizer);
    assert_eq!(back.sequence, f.sequence + 1);
    assert_eq!(back.recipient, b"jane@example.com".to_vec());
}

#[test]
fn stamped_reply_carries_a_single_line_dtstamp() {
    let input = lines(&["UID:u1", "ORGANIZER:mailto:j@x.org", "SUMMARY:S"]);
    let f = extract_fields(&input);
    let reply = build_reply_now(&f, Decision::Accepted, &b"me@example.com".to_vec(), &b"1.0".to_vec());
    let reply_text = String::from_utf8(reply).unwrap();
    assert!(reply_text.starts_with("BEGIN:VCALENDAR\n"));
    let dtstamp_line = reply_text
        .lines()
        .find(|l| l.starts_with("DTSTAMP:"))
        .expect("stamped reply has a DTSTAMP line");
    assert!(dtstamp_line.len() > "DTSTAMP:".len());
}

#[test]
fn parse_u32_accepts_plain_decimals_and_rejects_the_rest() {
    assert_eq!(parse_u32(&b"5".to_vec()), Some(5));
    assert_eq!(parse_u32(&b"+7".to_vec()), Some(7));
    assert_eq!(parse_u32(&b"007".to_vec()), Some(7));
    assert_eq!(parse_u32(&b"4294967295".to_vec()), Some(u32::MAX));
    assert_eq!(parse_u32(&b"4294967296".to_vec()), None);
    assert_eq!(parse_u32(&b"".to_vec()), None);
    assert_eq!(parse_u32(&b"+".to_vec()), None);
    assert_eq!(parse_u32(&b"12x".to_vec()), None);
    assert_eq!(parse_u32(&b"-3".to_vec()), None);
}

#[test]
fn u64_to_dec_writes_plain_decimals() {
    assert_eq!(u64_to_dec(0), b"0".to_vec());
    assert_eq!(u64_to_dec(6), b"6".to_vec());
    assert_eq!(u64_to_dec(123456), b"123456".to_vec());
    assert_eq!(u64_to_dec(4294967296), b"4294967296".to_vec());
}

#[test]
fn trim_removes_surrounding_whitespace_only() {
    assert_eq!(trim(&b"  a b\t\r\n".to_vec()), b"a b".to_vec());
    assert_eq!(trim(&b"".to_vec()), b"".to_vec());
    assert_eq!(trim(&b" \t ".to_vec()), b"".to_vec());
}

#[test]
fn byte_searches_behave_like_their_contracts_say() {
    assert!(starts_with(&b"UID:abc".to_vec(), &b"UID:".to_vec()));
    assert!(!starts_with(&b"UI".to_vec(), &b"UID:".to_vec()));
    assert!(contains(&b"a mailto:x".to_vec(), &b"mailto:".to_vec()));
    assert!(!contains(&b"a mail to:x".to_vec(), &b"mailto:".to_vec()));
    assert_eq!(after_last(&b"a:b:c".to_vec(), b':'), b"c".to_vec());
    assert_eq!(after_last(&b"abc".to_vec(), b':'), b"abc".to_vec());
}

#[test]
fn sender_address_is_the_last_whitespace_delimited_token_unquoted() {
    assert_eq!(
        parse_sender_address(&b"from = \"me@example.com\"\n".to_vec()),
        b"me@example.com".to_vec()
    );
    assert_eq!(
        parse_sender_address(&b"from=me@example.com".to_vec()),
        b"from=me@example.com".to_vec()
    );
    assert_eq!(
        parse_sender_address(&b"from\t\"me@example.com\"".to_vec()),
        b"me@example.com".to_vec()
    );
}

#[test]
fn largest_sequence_still_increments_in_the_reply() {
    let input = lines(&["UID:u1", "SEQUENCE:4294967295"]);
    let f = extract_fields(&input);
    assert_eq!(f.sequence, u32::MAX);
    let reply = build_reply(&f, Decision::Accepted, &b"me@example.com".to_vec(), &b"20260101T000000Z".to_vec(), &b"1.0".to_vec());
    let reply_text = String::from_utf8(reply).unwrap();
    assert!(reply_text.contains("\nSEQUENCE:4294967296\n"));
}
