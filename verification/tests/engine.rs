use mc_scanner::blacklist::{Blacklist, BlacklistEntry};
use mc_scanner::delta::{
    contains_forbidden, is_recordable, is_recordable_given, plan_events, same_players, PlayerEvent,
};
use mc_scanner::net::Cidr;
use mc_scanner::packets::{create_handshake_packet, create_status_request};
use mc_scanner::probe::{
    probe_start, probe_step, ErrorClass, LogLevel, ProbeAction, ProbeError, ProbeEvent,
    ProbeResult, ProbeStage, ProbeState,
};
use mc_scanner::status::{parse_server_json, ActionType, Player, Players};
use mc_scanner::store::{
    store_start, store_step, Stage, StoreAction, StoreEvent, StoreOutcome, StoreState,
};
use mc_scanner::string::write_string;
use mc_scanner::uuid::{is_cracked, name_to_uuid, uuid_from_digest};
use mc_scanner::varint::write_var_int;

fn players(pairs: &[(&str, &str)]) -> Players {
    Players {
        max: Some(20),
        online: Some(pairs.len() as i32),
        sample: Some(
            pairs
                .iter()
                .map(|(n, i)| Player {
                    name: Some(n.to_string()),
                    id: Some(i.to_string()),
                })
                .collect(),
        ),
    }
}

fn event(name: &str, uuid: &str, action: ActionType) -> PlayerEvent {
    PlayerEvent {
        name: name.to_string(),
        uuid: uuid.to_string(),
        action,
    }
}

const UUID_A: &str = "11111111-1111-4111-8111-111111111111";
const UUID_B: &str = "22222222-2222-4222-8222-222222222222";
const UUID_C: &str = "33333333-3333-4333-8333-333333333333";

#[test]
fn offline_uuid_of_notch() {
    assert_eq!(name_to_uuid("Notch"), "b50ad385-829d-3141-a216-7e7d7539ba7f");
}

#[test]
fn offline_uuid_has_version_3_and_the_rfc_variant() {
    for name in ["", "a", "Steve", "jeb_", "\u{e9}t\u{e9}", "0123456789abcdef0123456789"] {
        let uuid = name_to_uuid(name);
        let chars: Vec<char> = uuid.chars().collect();
        assert_eq!(chars.len(), 36);
        for (i, c) in chars.iter().enumerate() {
            if i == 8 || i == 13 || i == 18 || i == 23 {
                assert_eq!(*c, '-');
            } else {
                assert!(c.is_ascii_digit() || ('a'..='f').contains(c));
            }
        }
        assert_eq!(chars[14], '3');
        assert!(matches!(chars[19], '8' | '9' | 'a' | 'b'));
    }
}

#[test]
fn uuid_from_a_digest() {
    assert_eq!(
        uuid_from_digest([0u8; 16]),
        "00000000-0000-3000-8000-000000000000"
    );
    assert_eq!(
        uuid_from_digest([0xff; 16]),
        "ffffffff-ffff-3fff-bfff-ffffffffffff"
    );
    assert_eq!(
        uuid_from_digest([
            0x01, 0x23, 0x45, 0x67, 0x89, 0xab, 0xcd, 0xef, 0x10, 0x32, 0x54, 0x76, 0x98, 0xba,
            0xdc, 0xfe
        ]),
        "01234567-89ab-3def-9032-547698badcfe"
    );
}

#[test]
fn cracked_means_the_offline_uuid() {
    assert!(is_cracked("Notch", "b50ad385-829d-3141-a216-7e7d7539ba7f"));
    assert!(!is_cracked("Notch", "069a79f4-44e9-4726-a5be-fca90e38aaf5"));
    assert!(!is_cracked("notch", "b50ad385-829d-3141-a216-7e7d7539ba7f"));
}

#[test]
fn forbidden_characters() {
    assert!(contains_forbidden("a b"));
    assert!(contains_forbidden("\u{a7}cHello"));
    assert!(contains_forbidden("play.example.org"));
    assert!(!contains_forbidden("Notch_123"));
    assert!(!contains_forbidden(""));
    assert!(!contains_forbidden("\u{e9}"));
}

#[test]
fn recordable_players() {
    assert!(is_recordable("Notch", UUID_A));
    assert!(!is_recordable("", UUID_A));
    assert!(!is_recordable("Notch", ""));
    assert!(!is_recordable("\t", UUID_A));
    assert!(!is_recordable("Notch", "\n"));
    assert!(!is_recordable("No tch", UUID_A));
    assert!(!is_recordable("Notch", "1.2"));
    assert!(!is_recordable("\u{a7}aNotch", UUID_A));
    assert!(is_recordable_given("a", "b", "a", "b"));
    assert!(!is_recordable_given("a", "b", "", "b"));
    assert!(!is_recordable_given("a", "b", "a", ""));
    assert!(!is_recordable_given("a.", "b", "a.", "b"));
}

#[test]
fn reports_are_compared_by_their_players() {
    let a = players(&[("A", UUID_A), ("B", UUID_B)]);
    assert!(same_players(&a, &players(&[("A", UUID_A), ("B", UUID_B)])));
    assert!(same_players(&a, &players(&[("B", UUID_B), ("A", UUID_A)])));
    assert!(!same_players(&a, &players(&[("A", UUID_A)])));
    assert!(!same_players(&players(&[("A", UUID_A)]), &a));
    assert!(!same_players(&a, &players(&[("A", UUID_A), ("B", UUID_C)])));
    let mut other = players(&[("A", UUID_A), ("B", UUID_B)]);
    other.max = Some(21);
    assert!(!same_players(&a, &other));
    let mut other = players(&[("A", UUID_A), ("B", UUID_B)]);
    other.online = None;
    assert!(!same_players(&a, &other));
    let mut with_nameless = players(&[("A", UUID_A), ("B", UUID_B)]);
    with_nameless.sample.as_mut().unwrap().push(Player { name: None, id: Some("x".to_string()) });
    assert!(same_players(&a, &with_nameless));
    let mut none = players(&[]);
    none.sample = None;
    assert!(same_players(&players(&[]), &none));
}

#[test]
fn delta_of_two_reports() {
    let old = Some(players(&[("A", UUID_A), ("B", UUID_B)]));
    let new = Some(players(&[("B", UUID_B), ("C", UUID_C)]));
    assert_eq!(
        plan_events(false, &old, &new),
        vec![
            event("C", UUID_C, ActionType::Joined),
            event("A", UUID_A, ActionType::Left)
        ]
    );
}

#[test]
fn delta_on_a_new_server_is_every_player() {
    let new = Some(players(&[("A", UUID_A), ("bad name", UUID_B), ("C", UUID_C)]));
    assert_eq!(
        plan_events(true, &None, &new),
        vec![
            event("A", UUID_A, ActionType::Joined),
            event("C", UUID_C, ActionType::Joined)
        ]
    );
    assert_eq!(plan_events(true, &None, &None), vec![]);
}

#[test]
fn delta_without_change_is_empty() {
    let same = Some(players(&[("A", UUID_A)]));
    assert_eq!(plan_events(false, &same, &same), vec![]);
    assert_eq!(plan_events(false, &None, &None), vec![]);
    assert_eq!(plan_events(false, &None, &Some(players(&[]))), vec![]);
    let reordered_old = Some(players(&[("A", UUID_A), ("B", UUID_B)]));
    let reordered_new = Some(players(&[("B", UUID_B), ("A", UUID_A)]));
    assert_eq!(plan_events(false, &reordered_old, &reordered_new), vec![]);
}

#[test]
fn delta_against_a_missing_report() {
    let report = Some(players(&[("A", UUID_A)]));
    assert_eq!(
        plan_events(false, &None, &report),
        vec![event("A", UUID_A, ActionType::Joined)]
    );
    assert_eq!(
        plan_events(false, &report, &None),
        vec![event("A", UUID_A, ActionType::Left)]
    );
}

#[test]
fn delta_names_each_player_once_and_filters() {
    let old = Some(players(&[("A", UUID_A), ("A", UUID_A), ("x.y", UUID_B)]));
    let new = Some(players(&[("C", UUID_C), ("C", UUID_C), (" ", UUID_B)]));
    assert_eq!(
        plan_events(false, &old, &new),
        vec![
            event("C", UUID_C, ActionType::Joined),
            event("A", UUID_A, ActionType::Left)
        ]
    );
}

fn expect_store(step: (StoreState, StoreAction), action: StoreAction) -> StoreState {
    assert_eq!(step.1, action);
    step.0
}

#[test]
fn store_inserts_a_new_server_and_records_its_players() {
    let new = Some(players(&[("A", UUID_A)]));
    let (state, first) = store_start();
    assert_eq!(first, StoreAction::FindServer);
    assert_eq!(state.stage, Stage::FindingServer);
    let state = expect_store(
        store_step(state, StoreEvent::ServerRow(None), &new),
        StoreAction::InsertServer,
    );
    assert_eq!(state.events, vec![event("A", UUID_A, ActionType::Joined)]);
    let state = expect_store(
        store_step(state, StoreEvent::Written(7), &new),
        StoreAction::FindPlayer { index: 0 },
    );
    let state = expect_store(
        store_step(state, StoreEvent::Player(None), &new),
        StoreAction::AddPlayer { index: 0, cracked: false },
    );
    let state = expect_store(
        store_step(state, StoreEvent::Player(Some(3)), &new),
        StoreAction::AddAction { index: 0, user_id: 3 },
    );
    let state = expect_store(
        store_step(state, StoreEvent::Done, &new),
        StoreAction::Finish(StoreOutcome::Stored { server_id: 7, is_new_server: true }),
    );
    assert_eq!(state.stage, Stage::Finished);
}

#[test]
fn store_updates_a_known_server_and_records_the_delta() {
    let old = Some(players(&[("A", UUID_A)]));
    let new = Some(players(&[("B", UUID_B)]));
    let (state, _) = store_start();
    let state = expect_store(
        store_step(state, StoreEvent::ServerRow(Some((7, old))), &new),
        StoreAction::UpdateServer { id: 7 },
    );
    assert_eq!(
        state.events,
        vec![
            event("B", UUID_B, ActionType::Joined),
            event("A", UUID_A, ActionType::Left)
        ]
    );
    let state = expect_store(
        store_step(state, StoreEvent::Written(7), &new),
        StoreAction::FindPlayer { index: 0 },
    );
    let state = expect_store(
        store_step(state, StoreEvent::Player(Some(12)), &new),
        StoreAction::AddAction { index: 0, user_id: 12 },
    );
    let state = expect_store(
        store_step(state, StoreEvent::Done, &new),
        StoreAction::FindPlayer { index: 1 },
    );
    let state = expect_store(
        store_step(state, StoreEvent::Player(Some(11)), &new),
        StoreAction::AddAction { index: 1, user_id: 11 },
    );
    expect_store(
        store_step(state, StoreEvent::Failed, &new),
        StoreAction::Finish(StoreOutcome::Stored { server_id: 7, is_new_server: false }),
    );
}

#[test]
fn store_records_the_first_players_of_a_known_server() {
    let new = Some(players(&[("A", UUID_A)]));
    let (state, _) = store_start();
    let state = expect_store(
        store_step(state, StoreEvent::ServerRow(Some((7, None))), &new),
        StoreAction::UpdateServer { id: 7 },
    );
    assert_eq!(state.events, vec![event("A", UUID_A, ActionType::Joined)]);
    let state = expect_store(
        store_step(state, StoreEvent::Written(7), &new),
        StoreAction::FindPlayer { index: 0 },
    );
    let state = expect_store(
        store_step(state, StoreEvent::Player(None), &new),
        StoreAction::AddPlayer { index: 0, cracked: false },
    );
    let state = expect_store(
        store_step(state, StoreEvent::Player(Some(1)), &new),
        StoreAction::AddAction { index: 0, user_id: 1 },
    );
    expect_store(
        store_step(state, StoreEvent::Done, &new),
        StoreAction::Finish(StoreOutcome::Stored { server_id: 7, is_new_server: false }),
    );
}

#[test]
fn store_marks_offline_players_as_cracked() {
    let new = Some(players(&[("Notch", "b50ad385-829d-3141-a216-7e7d7539ba7f")]));
    let (state, _) = store_start();
    let (state, _) = store_step(state, StoreEvent::ServerRow(None), &new);
    let (state, _) = store_step(state, StoreEvent::Written(1), &new);
    let (_, action) = store_step(state, StoreEvent::Player(None), &new);
    assert_eq!(action, StoreAction::AddPlayer { index: 0, cracked: true });
}

#[test]
fn store_looks_a_player_up_again_after_a_conflict() {
    let new = Some(players(&[("A", UUID_A), ("B", UUID_B)]));
    let (state, _) = store_start();
    let (state, _) = store_step(state, StoreEvent::ServerRow(None), &new);
    let (state, _) = store_step(state, StoreEvent::Written(1), &new);
    let (state, _) = store_step(state, StoreEvent::Player(None), &new);
    let state = expect_store(
        store_step(state, StoreEvent::Player(None), &new),
        StoreAction::FindPlayer { index: 0 },
    );
    assert_eq!(state.stage, Stage::RefindingPlayer);
    let state = expect_store(
        store_step(state, StoreEvent::Player(None), &new),
        StoreAction::FindPlayer { index: 1 },
    );
    assert_eq!(state.stage, Stage::FindingPlayer);
    let state = expect_store(
        store_step(state, StoreEvent::Failed, &new),
        StoreAction::Finish(StoreOutcome::Stored { server_id: 1, is_new_server: true }),
    );
    expect_store(
        store_step(state, StoreEvent::Done, &new),
        StoreAction::Finish(StoreOutcome::Dropped),
    );
}

#[test]
fn store_retries_the_lookup_once_after_a_unique_violation() {
    let new = Some(players(&[]));
    let (state, _) = store_start();
    let (state, _) = store_step(state, StoreEvent::ServerRow(None), &new);
    let state = expect_store(
        store_step(state, StoreEvent::Conflict, &new),
        StoreAction::FindServer,
    );
    let state = expect_store(
        store_step(state, StoreEvent::ServerRow(None), &new),
        StoreAction::InsertServer,
    );
    expect_store(
        store_step(state, StoreEvent::Conflict, &new),
        StoreAction::Finish(StoreOutcome::Dropped),
    );
    let (state, _) = store_start();
    let (state, _) = store_step(state, StoreEvent::ServerRow(None), &new);
    let (state, _) = store_step(state, StoreEvent::Conflict, &new);
    let state = expect_store(
        store_step(state, StoreEvent::ServerRow(Some((9, None))), &new),
        StoreAction::UpdateServer { id: 9 },
    );
    expect_store(
        store_step(state, StoreEvent::Written(9), &new),
        StoreAction::Finish(StoreOutcome::Stored { server_id: 9, is_new_server: false }),
    );
}

#[test]
fn store_drops_the_status_when_the_database_fails() {
    let new = None;
    let (state, _) = store_start();
    expect_store(
        store_step(state, StoreEvent::Failed, &new),
        StoreAction::Finish(StoreOutcome::Dropped),
    );
    let (state, _) = store_start();
    let (state, _) = store_step(state, StoreEvent::ServerRow(Some((1, None))), &new);
    expect_store(
        store_step(state, StoreEvent::Failed, &new),
        StoreAction::Finish(StoreOutcome::Dropped),
    );
    let (state, _) = store_start();
    let (state, _) = store_step(state, StoreEvent::ServerRow(None), &new);
    expect_store(
        store_step(state, StoreEvent::Player(Some(1)), &new),
        StoreAction::Finish(StoreOutcome::Dropped),
    );
}

fn response(json: &str) -> Vec<u8> {
    let mut frame = Vec::new();
    write_var_int(&mut frame, &0);
    write_string(&mut frame, json).unwrap();
    frame
}

fn feed_length(mut state: ProbeState, len: i32) -> (ProbeState, ProbeAction) {
    let mut bytes = Vec::new();
    write_var_int(&mut bytes, &len);
    let mut action = ProbeAction::ReadByte;
    for b in bytes {
        assert_eq!(action, ProbeAction::ReadByte);
        let step = probe_step(state, ProbeEvent::Byte(b));
        state = step.0;
        action = step.1;
    }
    (state, action)
}

fn up_to_the_length(ip: u32, fan_out: bool) -> ProbeState {
    let (state, action) = probe_start(ip, 25565, fan_out, &Blacklist::new());
    assert_eq!(action, ProbeAction::Connect { ip, port: 25565 });
    let (state, action) = probe_step(state, ProbeEvent::Connected);
    assert!(matches!(action, ProbeAction::Send(_)));
    let (state, action) = probe_step(state, ProbeEvent::Sent);
    assert_eq!(action, ProbeAction::Send(create_status_request()));
    let (state, action) = probe_step(state, ProbeEvent::Sent);
    assert_eq!(action, ProbeAction::ReadByte);
    assert_eq!(state.stage, ProbeStage::ReadingLength);
    state
}

#[test]
fn probe_discovers_a_server() {
    let ip = 0x7f00_0001u32;
    let (state, action) = probe_start(ip, 25565, true, &Blacklist::new());
    assert_eq!(action, ProbeAction::Connect { ip, port: 25565 });
    let (state, action) = probe_step(state, ProbeEvent::Connected);
    assert_eq!(
        action,
        ProbeAction::Send(create_handshake_packet(757, "127.0.0.1", 25565, 1).unwrap())
    );
    let (state, _) = probe_step(state, ProbeEvent::Sent);
    let (state, _) = probe_step(state, ProbeEvent::Sent);
    let frame = response("{\"description\":\"hi\"}");
    let (state, action) = feed_length(state, frame.len() as i32);
    assert_eq!(action, ProbeAction::ReadFrame(frame.len()));
    let (state, action) = probe_step(state, ProbeEvent::Frame(frame));
    assert_eq!(
        action,
        ProbeAction::Store {
            addr: "127.0.0.1:25565".to_string(),
            status: parse_server_json("{\"description\":\"hi\"}").unwrap(),
        }
    );
    assert_eq!(state.stage, ProbeStage::Storing);
    let stored = StoreOutcome::Stored { server_id: 1, is_new_server: true };
    let (state, action) = probe_step(state, ProbeEvent::Stored(stored));
    assert_eq!(
        action,
        ProbeAction::Finish(ProbeResult::Found { is_new_server: true, fan_out: true })
    );
    assert_eq!(state.stage, ProbeStage::Finished);
}

#[test]
fn probe_of_a_neighbour_does_not_fan_out() {
    let state = up_to_the_length(0x0a00_0001, false);
    let frame = response("{}");
    let (state, _) = feed_length(state, frame.len() as i32);
    let (state, _) = probe_step(state, ProbeEvent::Frame(frame));
    let stored = StoreOutcome::Stored { server_id: 4, is_new_server: false };
    let (_, action) = probe_step(state, ProbeEvent::Stored(stored));
    assert_eq!(
        action,
        ProbeAction::Finish(ProbeResult::Found { is_new_server: false, fan_out: false })
    );
}

#[test]
fn probe_passes_over_a_blacklisted_address() {
    let mut bl = Blacklist::new();
    bl.add(BlacklistEntry::Cidr(Cidr { addr: 0x0a00_0000, prefix_len: 24 }));
    let (state, action) = probe_start(0x0a00_0001, 25565, true, &bl);
    assert_eq!(action, ProbeAction::Finish(ProbeResult::Blacklisted));
    assert_eq!(state.stage, ProbeStage::Finished);
    let (_, action) = probe_start(0x0a00_0101, 25565, true, &bl);
    assert_eq!(action, ProbeAction::Connect { ip: 0x0a00_0101, port: 25565 });
}

fn failed(e: ProbeError) -> ProbeAction {
    ProbeAction::Finish(ProbeResult::Failed(e))
}

#[test]
fn probe_ends_on_connection_errors() {
    let start = || probe_start(1, 25565, true, &Blacklist::new()).0;
    assert_eq!(probe_step(start(), ProbeEvent::TimedOut).1, failed(ProbeError::ConnectTimeout));
    assert_eq!(probe_step(start(), ProbeEvent::Refused).1, failed(ProbeError::ConnectRefused));
    let (state, _) = probe_step(start(), ProbeEvent::Connected);
    assert_eq!(probe_step(state, ProbeEvent::SendFailed).1, failed(ProbeError::WriteFailed));
    let (state, _) = probe_step(start(), ProbeEvent::Connected);
    let (state, _) = probe_step(state, ProbeEvent::Sent);
    assert_eq!(probe_step(state, ProbeEvent::SendFailed).1, failed(ProbeError::WriteFailed));
}

#[test]
fn probe_ends_when_the_server_never_replies() {
    let state = up_to_the_length(1, true);
    let (state, action) = probe_step(state, ProbeEvent::ReadFailed);
    assert_eq!(action, failed(ProbeError::ShortRead));
    assert_eq!(state.stage, ProbeStage::Finished);
    let state = up_to_the_length(1, true);
    let (state, _) = feed_length(state, 10);
    assert_eq!(probe_step(state, ProbeEvent::ReadFailed).1, failed(ProbeError::ShortRead));
}

#[test]
fn probe_refuses_bad_lengths() {
    let (_, action) = feed_length(up_to_the_length(1, true), 2097153);
    assert_eq!(action, failed(ProbeError::FrameTooLarge));
    let (_, action) = feed_length(up_to_the_length(1, true), -1);
    assert_eq!(action, failed(ProbeError::FrameTooLarge));
    let (_, action) = feed_length(up_to_the_length(1, true), 0);
    assert_eq!(action, failed(ProbeError::ShortRead));
    let (_, action) = feed_length(up_to_the_length(1, true), 2097152);
    assert_eq!(action, ProbeAction::ReadFrame(2097152));
    let mut state = up_to_the_length(1, true);
    for _ in 0..4 {
        let step = probe_step(state, ProbeEvent::Byte(0x80));
        assert_eq!(step.1, ProbeAction::ReadByte);
        state = step.0;
    }
    assert_eq!(
        probe_step(state, ProbeEvent::Byte(0x80)).1,
        failed(ProbeError::MalformedVarInt)
    );
}

#[test]
fn probe_refuses_bad_frames() {
    let frame_of = |bytes: Vec<u8>| {
        let (state, _) = feed_length(up_to_the_length(1, true), bytes.len() as i32);
        probe_step(state, ProbeEvent::Frame(bytes)).1
    };
    assert_eq!(frame_of(response("{not json")), failed(ProbeError::JsonParseError));
    assert_eq!(frame_of(vec![0x00, 0x02, 0xff, 0xfe]), failed(ProbeError::InvalidUtf8));
    assert_eq!(frame_of(vec![0x00, 0x09, b'{', b'}']), failed(ProbeError::ShortRead));
    assert_eq!(
        frame_of(vec![0x80, 0x80, 0x80, 0x80, 0x80, 0x00]),
        failed(ProbeError::MalformedVarInt)
    );
    let (state, _) = feed_length(up_to_the_length(1, true), 5);
    assert_eq!(
        probe_step(state, ProbeEvent::Frame(response("{}"))).1,
        failed(ProbeError::ShortRead)
    );
}

#[test]
fn probe_ends_when_the_store_fails() {
    let frame = response("{}");
    let (state, _) = feed_length(up_to_the_length(1, true), frame.len() as i32);
    let (state, _) = probe_step(state, ProbeEvent::Frame(frame));
    let (state, action) = probe_step(state, ProbeEvent::Stored(StoreOutcome::Dropped));
    assert_eq!(action, failed(ProbeError::StoreFailed));
    assert_eq!(probe_step(state, ProbeEvent::Sent).1, failed(ProbeError::ShortRead));
}

#[test]
fn errors_are_logged_by_their_class() {
    let classes = [
        (ProbeError::ConnectTimeout, ErrorClass::ConnectError, LogLevel::Info),
        (ProbeError::ConnectRefused, ErrorClass::ConnectError, LogLevel::Info),
        (ProbeError::WriteFailed, ErrorClass::IoError, LogLevel::Info),
        (ProbeError::ShortRead, ErrorClass::IoError, LogLevel::Info),
        (ProbeError::MalformedVarInt, ErrorClass::ProtocolError, LogLevel::Warn),
        (ProbeError::FrameTooLarge, ErrorClass::ProtocolError, LogLevel::Warn),
        (ProbeError::InvalidUtf8, ErrorClass::ProtocolError, LogLevel::Warn),
        (ProbeError::JsonParseError, ErrorClass::JsonError, LogLevel::Warn),
        (ProbeError::StoreFailed, ErrorClass::DbTransientError, LogLevel::Warn),
    ];
    for (error, class, level) in classes {
        assert_eq!(error.class(), class);
        assert_eq!(class.level(), level);
    }
}
