//! The journal: what is written down, what is read back, and what a retry is
//! answered with.

use serde_json::Value;

use fehu_webapp::commands::{finish, finish_replay, Applied};
use fehu_webapp::journal::{
    file_text, header_line, judge, lines_of, mend, path_for, payload_hash, read, remember, seed_from_ticker, Command, CommandLog, CommandRecord,
    Header, Journal, JournalEntry, JournalError, ParsedLine, Principal, Verdict, Written, JOURNAL_VERSION,
};

/// A command as it is written down.
fn json(command: &Command) -> String {
    let text = |s: &str| Value::String(s.to_string()).to_string();
    let maybe = |s: &Option<String>| s.as_ref().map_or(Value::Null, |s| Value::String(s.clone())).to_string();
    match command {
        Command::Halt { symbol } => format!("{{\"command\":\"halt\",\"symbol\":{}}}", text(symbol)),
        Command::CreateUser { name, email, key_digest } => format!(
            "{{\"command\":\"create_user\",\"name\":{},\"email\":{},\"key_digest\":{}}}",
            maybe(name),
            maybe(email),
            text(key_digest)
        ),
        other => format!("{{\"command\":{}}}", text(other.kind())),
    }
}

fn hash(command: Command) -> String {
    payload_hash(&json(&command.as_asked()).into_bytes())
}

fn halt(symbol: &str) -> Command {
    Command::Halt { symbol: symbol.to_string() }
}

fn entry(seq: u64, command: Command) -> JournalEntry {
    let again = match &command {
        Command::Halt { symbol } => halt(symbol),
        _ => Command::Step,
    };
    JournalEntry {
        seq,
        principal: Principal::Operator,
        idempotency_key: Some(format!("key-{seq}")),
        payload_hash: hash(again),
        at_ms: 1_000 * seq as i64,
        wall_ms: 5,
        command,
    }
}

/// An operator's entry as it is written down.
fn line(e: &JournalEntry) -> Written {
    let text = format!(
        "{{\"seq\":{},\"principal\":{{\"kind\":\"operator\"}},\"idempotency_key\":{},\"payload_hash\":{},\"at_ms\":{},\"wall_ms\":{},\"command\":{}}}",
        e.seq,
        Value::String(e.idempotency_key.clone().unwrap()),
        Value::String(e.payload_hash.clone()),
        e.at_ms,
        e.wall_ms,
        json(&e.command)
    );
    Written { seq: e.seq, text }
}

/// What the tests look at in an entry that was read back.
#[derive(Debug, PartialEq)]
struct Back {
    seq: u64,
    at_ms: i64,
    kind: String,
}

fn parse(text: &str) -> Result<Back, String> {
    let value: Value = serde_json::from_str(text).map_err(|e| e.to_string())?;
    let field = |name: &str| value.get(name).ok_or(format!("missing field `{name}`"));
    Ok(Back {
        seq: field("seq")?.as_u64().ok_or("no sequence")?,
        at_ms: field("at_ms")?.as_i64().ok_or("no instant")?,
        kind: field("command")?.get("command").and_then(Value::as_str).ok_or("no command")?.to_string(),
    })
}

fn parse_header(text: &str) -> Result<Header, String> {
    let value: Value = serde_json::from_str(text).map_err(|e| e.to_string())?;
    let number = |name: &str| value.get(name).and_then(Value::as_u64).ok_or(format!("missing field `{name}`"));
    Ok(Header { journal: number("journal")? as u32, after_seq: number("after_seq")? })
}

/// Read a file of lines, the first of which is the header.
fn read_lines(file: &[String]) -> Result<Vec<Back>, JournalError> {
    let header = file.first().map(|text| parse_header(text));
    let lines = file
        .iter()
        .skip(1)
        .map(|text| ParsedLine { text: text.clone(), entry: parse(text) })
        .collect();
    read(header, lines)
}

fn append(journal: &mut Journal, file: &mut Vec<String>, e: &JournalEntry, durable: bool) {
    let written = line(e);
    file.push(written.text.clone());
    journal.append(written, durable, Ok(())).unwrap();
}

#[test]
fn entries_round_trip_through_the_file() {
    let mut file = vec![header_line(7)];
    assert_eq!(file[0], format!("{{\"journal\":{JOURNAL_VERSION},\"after_seq\":7}}"));
    let mut journal = Journal::open(7);
    append(&mut journal, &mut file, &entry(8, halt("ACME")), true);
    append(&mut journal, &mut file, &entry(9, Command::Step), false);
    assert!(journal.needs_sync());
    journal.synced();
    assert!(!journal.needs_sync());
    let back = read_lines(&file).unwrap();
    assert_eq!(back.len(), 2);
    assert_eq!(back[0].seq, 8);
    assert_eq!(back[0].kind, "halt");
    assert_eq!(back[1].kind, "step");
    assert_eq!(back[1].at_ms, 9_000);
}

#[test]
fn a_half_written_last_line_is_dropped_and_an_earlier_one_is_not() {
    let mut file = vec![header_line(0)];
    let mut journal = Journal::open(0);
    append(&mut journal, &mut file, &entry(1, halt("ACME")), true);
    file.push("{\"seq\":2,\"princ".into());
    assert_eq!(read_lines(&file).unwrap().len(), 1, "the torn tail is dropped");

    file.push(line(&entry(3, halt("ACME"))).text);
    assert!(
        matches!(read_lines(&file), Err(JournalError::Format { line: 3, .. })),
        "a bad line in the middle is corruption, not a torn write"
    );
}

#[test]
fn an_appended_entry_is_read_after_those_before_it() {
    let mut file = vec![header_line(0)];
    let mut journal = Journal::open(0);
    append(&mut journal, &mut file, &entry(1, halt("ACME")), true);
    file.push("   ".into());
    let before = read_lines(&file).unwrap();
    append(&mut journal, &mut file, &entry(2, Command::Step), true);
    let mut after = read_lines(&file).unwrap();
    assert_eq!(after.pop(), Some(Back { seq: 2, at_ms: 2_000, kind: "step".into() }));
    assert_eq!(after, before, "and what was there is as it was");
    assert!(read_lines(&[]).unwrap().is_empty(), "a file with nothing in it has no entries");
    assert!(matches!(
        read_lines(&["not a header".to_string()]),
        Err(JournalError::Format { line: 1, .. })
    ));
}

/// What a journal file's text becomes when it is opened.
fn opened(text: &str) -> String {
    let lines = lines_of(text);
    let parsed = lines[1..].iter().map(|text| ParsedLine { text: text.clone(), entry: parse(text) }).collect();
    file_text(&mend(lines[0].clone(), &parsed))
}

#[test]
fn what_is_appended_to_a_torn_journal_is_read_back() {
    let entries = [line(&entry(1, halt("ACME"))).text, line(&entry(2, Command::Step)).text];
    let sound = file_text(&vec![header_line(0), entries[0].clone()]);
    assert_eq!(sound, format!("{}\n{}\n", header_line(0), entries[0]));
    assert_eq!(opened(&sound), sound, "a sound journal is left as it is");

    for torn in ["{\"seq\":2,\"princ", "{\"seq\":2,\"princ\n", "{\"seq\":2,\"princ\r\n"] {
        let torn = format!("{sound}{torn}");
        assert_eq!(read_lines(&lines_of(&torn)).unwrap().len(), 1);
        let unmended = format!("{torn}{}\n", entries[1]);
        let lost = read_lines(&lines_of(&unmended));
        assert!(lost.map_or(true, |entries| entries.len() == 1), "appended as it stands, the entry is lost");

        let mended = opened(&torn);
        assert_eq!(mended, sound);
        let after = read_lines(&lines_of(&format!("{mended}{}\n", entries[1]))).unwrap();
        assert_eq!(after.iter().map(|e| e.seq).collect::<Vec<_>>(), vec![1, 2]);
    }
    // A last line that is whole but was never ended is not run into either.
    let unended = sound.trim_end();
    assert_eq!(opened(unended), sound);
    // Only the end is mended: a bad line before it is still there to refuse.
    let corrupt = format!("{}\nnot json\n{}\n", header_line(0), entries[0]);
    assert_eq!(opened(&corrupt), corrupt);
    assert!(matches!(read_lines(&lines_of(&corrupt)), Err(JournalError::Format { line: 2, .. })));
}

#[test]
fn a_text_is_split_into_its_lines() {
    assert!(lines_of("").is_empty());
    assert_eq!(lines_of("\n"), vec![""]);
    assert_eq!(lines_of("a\nb"), vec!["a", "b"], "the last line need not be ended");
    assert_eq!(lines_of("a\r\nb\n"), vec!["a", "b"]);
    assert_eq!(lines_of("a\n\nb\n"), vec!["a", "", "b"]);
    assert_eq!(lines_of("a\rb\r\r\n"), vec!["a\rb\r"], "only an end of a line is taken off");
    assert_eq!(file_text(&Vec::new()), "");
    assert_eq!(file_text(&vec!["a".into(), String::new()]), "a\n\n");
    assert_eq!(lines_of("a\r"), vec!["a\r"], "a carriage return alone ends nothing");
}

#[test]
fn truncating_keeps_only_what_the_snapshot_missed() {
    let mut file = vec![header_line(0)];
    let mut journal = Journal::open(0);
    for seq in 1..=4 {
        append(&mut journal, &mut file, &entry(seq, halt("ACME")), true);
    }
    let mut file = journal.truncate_to(2).expect("there is a file to rewrite");
    assert_eq!(file[0], header_line(2));
    let kept = read_lines(&file).unwrap();
    assert_eq!(
        kept.iter().map(|e| e.seq).collect::<Vec<_>>(),
        vec![3, 4],
        "everything the snapshot holds is gone"
    );
    append(&mut journal, &mut file, &entry(5, halt("ACME")), true);
    assert_eq!(read_lines(&file).unwrap().len(), 3, "and appending still works");
    assert_eq!(journal.pending().len(), 3);
}

#[test]
fn a_journal_from_another_version_is_refused() {
    let file = vec!["{\"journal\":99,\"after_seq\":0}".to_string()];
    let refused = read_lines(&file);
    assert!(matches!(refused, Err(JournalError::Version { found: 99, .. })));
    assert_eq!(
        refused.unwrap_err().message(),
        format!("journal is version 99, this build reads {JOURNAL_VERSION}")
    );
}

#[test]
fn the_payload_hash_tells_a_retry_from_a_different_request() {
    assert_eq!(hash(halt("ACME")), hash(halt("ACME")));
    // SHA-256 of the domain and `{"command":"halt","symbol":"ACME"}`.
    assert_eq!(hash(halt("ACME")), "sha256:23381dc085e02554f972145d3be0001e6bc2605cb1c69ea6eb108146c21d77db");
    assert_ne!(hash(halt("ACME")), hash(halt("NBLA")));
}

#[test]
fn a_key_this_server_generated_is_not_part_of_what_was_asked_for() {
    let signup = |digest: &str| Command::CreateUser {
        name: Some("ada".into()),
        email: None,
        key_digest: digest.to_string(),
    };
    assert_eq!(
        hash(signup("sha256:aaa")),
        hash(signup("sha256:bbb")),
        "a retried sign-up carries a fresh key, and is still the same request"
    );
    let other = Command::CreateUser {
        name: Some("bea".into()),
        email: None,
        key_digest: "sha256:aaa".into(),
    };
    assert_ne!(hash(signup("sha256:aaa")), hash(other));
}

fn kept(i: u64) -> CommandRecord {
    CommandRecord {
        key: format!("k{i}"),
        seq: i,
        principal: Principal::Anonymous,
        kind: "halt".into(),
        payload_hash: "sha256:x".into(),
        status: 200,
        wall_ms: 0,
        result: "null".into(),
    }
}

#[test]
fn the_command_log_evicts_the_oldest_key() {
    let mut log = CommandLog::new(2);
    for i in 0..3 {
        log.record(kept(i));
    }
    assert_eq!(log.len(), 2);
    assert!(log.get("k0").is_none(), "the oldest key went");
    assert!(log.get("k2").is_some());
    assert_eq!(log.records().len(), 2);
}

#[test]
fn a_disabled_journal_keeps_nothing_and_refuses_nothing() {
    let mut journal = Journal::disabled();
    assert!(!journal.is_enabled());
    assert!(journal.append(line(&entry(1, Command::Step)), true, Ok(())).is_ok());
    assert!(journal.pending().is_empty(), "and holds on to nothing");
    assert!(journal.broken().is_none());
    assert!(journal.truncate_to(1).is_none());
}

#[test]
fn the_payload_hash_is_a_domain_separated_digest() {
    // SHA-256 of the domain followed by the payload, as `sha256sum` prints it.
    assert_eq!(payload_hash(&Vec::new()), "sha256:b81977743e14188b17f26b8d1d7cc52cfa1cca706c226da622736640ecffddf8");
    assert_eq!(payload_hash(&b"{}".to_vec()), "sha256:4e809e9e0afe669449b9ad111897a96d0dae24aa3ff6d1d81bab884f7402d124");
}

#[test]
fn a_command_log_survives_a_restart() {
    let mut log = CommandLog::new(3);
    for i in 0..5 {
        log.record(kept(i));
    }
    let mut back = CommandLog::new(3);
    assert!(back.is_empty());
    back.restore(log.records());
    assert_eq!(back.len(), 3);
    assert_eq!(back.get("k4").unwrap(), log.get("k4").unwrap());
    assert!(back.get("k1").is_none());
}

#[test]
fn a_repeat_is_answered_and_a_reused_key_is_refused() {
    let mut journal = Journal::open(0);
    let mut commands = CommandLog::new(10);
    let key = Some("key-1".to_string());
    let asked = hash(halt("ACME"));
    assert!(matches!(judge(&journal, &commands, &key, &asked), Verdict::Apply));

    let e = entry(journal.next_seq(), halt("ACME"));
    let done = finish(
        &mut journal,
        &mut commands,
        &e,
        line(&e).text,
        Ok(()),
        Applied::new(201, "{\"halted\":true,\"key\":\"x\"}".into()).without("{\"halted\":true}".into()),
    )
    .unwrap();
    assert_eq!((done.status, done.seq, done.replayed), (201, 1, false));
    assert_eq!(done.body, "{\"halted\":true,\"key\":\"x\"}");
    assert_eq!(journal.pending().len(), 1);

    let Verdict::Replay { status, body, seq } = judge(&journal, &commands, &key, &asked) else {
        panic!("the same key and payload is a retry");
    };
    assert_eq!((status, body.as_str(), seq), (201, "{\"halted\":true}", 1), "without what is shown only once");

    let Verdict::Refuse(e) = judge(&journal, &commands, &key, &hash(halt("NBLA"))) else {
        panic!("the same key over another payload is a conflict");
    };
    assert_eq!((e.status, e.code), (409, "idempotency_conflict"));
    assert!(matches!(judge(&journal, &commands, &None, &asked), Verdict::Apply));
}

#[test]
fn a_journal_that_cannot_write_takes_nothing_more() {
    let mut journal = Journal::open(4);
    let mut commands = CommandLog::new(10);
    let e = entry(journal.next_seq(), halt("ACME"));
    let refused = finish(
        &mut journal,
        &mut commands,
        &e,
        line(&e).text,
        Err("no space left".into()),
        Applied::new(200, "{}".into()),
    )
    .unwrap_err();
    assert_eq!((refused.status, refused.code), (503, "journal_broken"));
    assert!(commands.is_empty(), "what was not written down is not remembered");
    assert_eq!(journal.broken().map(|s| s.as_str()), Some("no space left"));
    assert!(matches!(judge(&journal, &commands, &None, "x"), Verdict::Refuse(_)));
}

#[test]
fn replaying_takes_the_sequence_whether_or_not_it_still_fits() {
    let mut journal = Journal::open(3);
    let mut commands = CommandLog::new(10);
    finish_replay(&mut journal, &mut commands, &entry(4, halt("ACME")), Some(Applied::new(200, "{}".into())));
    finish_replay(&mut journal, &mut commands, &entry(5, halt("ACME")), None);
    assert_eq!(journal.seq(), 5);
    assert_eq!(commands.len(), 1);
    assert_eq!(journal.next_seq(), 6);
    remember(&mut commands, &entry(6, Command::Step), 200, "{}".into());
    assert_eq!(commands.get("key-6").unwrap().kind, "step");
}

#[test]
fn names_and_seeds_are_stable() {
    assert_eq!(path_for("state.json"), "state.json.journal");
    assert_eq!(seed_from_ticker("ACME"), 0x9a6e148ba8e1eecf);
    assert_ne!(seed_from_ticker("ACME"), seed_from_ticker("NBLA"));
    assert_eq!(Principal::User { id: 3 }.user().map(|u| u.0), Some(3));
    assert!(Principal::Engine.user().is_none());
    assert!(!Command::Step.durable() && halt("ACME").durable());
}
