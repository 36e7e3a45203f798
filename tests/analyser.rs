use tf_demo_analyser::analyser::{parse_u32, Analyser};
use tf_demo_analyser::entity::{decode_entity, EntityId, PacketEntity, PropValue, Pvs, SendProp};
use tf_demo_analyser::message::{
    GameEvent, Message, MessageType, PlayerDeathEvent, PlayerHurtEvent, PlayerSpawnEvent,
    TeamPlayRoundWinEvent, UserMessage,
};
use tf_demo_analyser::records::{Class, ClassList, Death, Pause, Spawn, Team, UserId};
use tf_demo_analyser::sendprop::{FlatProp, PropDefinition, PropIdentifier, PropKind, PropSchema, ServerClass};
use tf_demo_analyser::userinfo::{parse_player_info, ReadError};
use tf_demo_analyser::usermessage::{ChatMessageKind, SayText2Message};

#[test]
fn test_classlist_sorted() {
    let list = ClassList([0, 1, 5, 0, 0, 3, 0, 0, 0, 0]);
    assert_eq!(
        list.sorted(),
        &[(Class::Sniper, 5), (Class::Medic, 3), (Class::Scout, 1)]
    )
}

#[test]
fn classlist_sorted_keeps_class_order_on_ties() {
    let list = ClassList([0, 2, 0, 2, 0, 0, 0, 0, 0, 7]);
    assert_eq!(list.sorted(), vec![(Class::Engineer, 7), (Class::Scout, 2), (Class::Soldier, 2)]);
    assert_eq!(list.iter(), vec![(Class::Scout, 2), (Class::Soldier, 2), (Class::Engineer, 7)]);
    assert_eq!(ClassList::new().sorted(), vec![]);
}

#[test]
fn team_and_class_codes() {
    assert_eq!(Team::new(2), Team::Red);
    assert_eq!(Team::new(3), Team::Blue);
    assert_eq!(Team::new(1), Team::Spectator);
    assert_eq!(Team::new(4), Team::Other);
    assert_eq!(Team::new(-1), Team::Other);
    assert!(Team::Red.is_player());
    assert!(!Team::Spectator.is_player());
    assert_eq!(Class::new(1), Class::Scout);
    assert_eq!(Class::new(9), Class::Engineer);
    assert_eq!(Class::new(10), Class::Other);
    assert_eq!(Class::new(300), Class::Other);
    assert_eq!(Class::Medic.code(), 5);
}

#[test]
fn user_id_keeps_low_bits() {
    assert_eq!(UserId::from_u32(0x1_0005), UserId(5));
    assert_eq!(UserId(9).to_u32(), 9);
    assert!(UserId(9).is(9));
}

#[test]
fn spawn_from_event() {
    let s = Spawn::from_event(&PlayerSpawnEvent { user_id: 3, team: 3, class: 7 }, 12);
    assert_eq!(s, Spawn { user: UserId(3), class: Class::Pyro, team: Team::Blue, tick: 12 });
}

fn death(assister: u16) -> Death {
    let e = PlayerDeathEvent {
        user_id: 1,
        attacker: 2,
        assister,
        weapon: String::from("scattergun"),
    };
    Death::from_event(&e, 40)
}

#[test]
fn assister_sentinel() {
    assert_eq!(death(16384).assister, None);
    assert_eq!(death(65535).assister, None);
    assert_eq!(death(16383).assister, Some(UserId(16383)));
    let d = death(5);
    assert_eq!(d.assister, Some(UserId(5)));
    assert_eq!(d.victim, UserId(1));
    assert_eq!(d.killer, UserId(2));
    assert_eq!(d.weapon, "scattergun");
    assert_eq!(d.tick, 40);
}

fn round_win(reason: u8) -> Message {
    Message::GameEvent(GameEvent::TeamPlayRoundWin(TeamPlayRoundWinEvent {
        team: 2,
        win_reason: reason,
        round_time: 90.0f32.to_bits(),
    }))
}

#[test]
fn rounds_ended_by_time_limit_are_left_out() {
    let mut a = Analyser::new();
    a.handle_message(&round_win(6), 100);
    assert_eq!(a.borrow_output().rounds.len(), 0);
    a.handle_message(&round_win(1), 200);
    let rounds = &a.borrow_output().rounds;
    assert_eq!(rounds.len(), 1);
    assert_eq!(rounds[0].winner, Team::Red);
    assert_eq!(rounds[0].end_tick, 200);
    assert_eq!(f32::from_bits(rounds[0].length), 90.0);
}

#[test]
fn pause_pairing() {
    let mut a = Analyser::new();
    a.handle_message(&Message::SetPause(true), 100);
    a.handle_message(&Message::SetPause(false), 150);
    assert_eq!(a.borrow_output().pauses, vec![Pause { from: 100, to: 150 }]);

    let mut b = Analyser::new();
    b.handle_message(&Message::SetPause(false), 70);
    assert_eq!(b.into_output().pauses, vec![Pause { from: 0, to: 70 }]);
}

#[test]
fn start_tick_is_the_first_net_tick() {
    let mut a = Analyser::new();
    a.handle_message(&Message::NetTick(500), 1);
    a.handle_message(&Message::NetTick(600), 2);
    a.handle_message(&Message::ServerInfo(0.015f32.to_bits()), 3);
    let s = a.into_output();
    assert_eq!(s.start_tick, 500);
    assert_eq!(f32::from_bits(s.interval_per_tick), 0.015);
}

#[test]
fn does_handle_kinds() {
    assert!(Analyser::does_handle(MessageType::GameEvent));
    assert!(Analyser::does_handle(MessageType::PacketEntities));
    assert!(!Analyser::does_handle(MessageType::StringTable));
    assert!(!Analyser::does_handle(MessageType::Other));
}

fn user_entry(name: &str, id: u32, steam: &str) -> Vec<u8> {
    let mut data = vec![0u8; 69];
    data[..name.len()].copy_from_slice(name.as_bytes());
    data[32..36].copy_from_slice(&id.to_le_bytes());
    data[36..36 + steam.len()].copy_from_slice(steam.as_bytes());
    data
}

#[test]
fn parse_player_info_reads_the_record() {
    let data = user_entry("Alice", 7, "[U:1:2]");
    let info = parse_player_info(4, Some(&data)).unwrap().unwrap();
    assert_eq!(info.name, "Alice");
    assert_eq!(info.user_id, 7);
    assert_eq!(info.steam_id, "[U:1:2]");
    assert_eq!(info.entity_id, EntityId(5));
    assert!(parse_player_info(4, None).unwrap().is_none());
    assert!(parse_player_info(4, Some(&user_entry("Bot", 3, ""))).unwrap().is_none());
    assert!(matches!(parse_player_info(4, Some(&vec![1u8; 40])), Err(ReadError::NotEnoughData)));
}

fn spawn_msg(user: u16, team: u16, class: u16) -> Message {
    Message::GameEvent(GameEvent::PlayerSpawn(PlayerSpawnEvent { user_id: user, team, class }))
}

#[test]
fn users_spawns_hurts_and_renames() {
    let mut a = Analyser::new();
    a.handle_message(&spawn_msg(7, 2, 1), 5);
    assert_eq!(a.borrow_output().users.len(), 0);
    a.handle_string_entry("userinfo", 4, Some(&user_entry("Alice", 7, "[U:1:2]")));
    a.handle_string_entry("userinfo", 1, Some(&user_entry("Carol", 3, "[U:1:3]")));
    a.handle_string_entry("other", 2, Some(&user_entry("Dave", 9, "[U:1:9]")));
    {
        let users = &a.borrow_output().users;
        assert_eq!(users.len(), 2);
        assert_eq!(users[0].user_id, UserId(3));
        assert_eq!(users[1].user_id, UserId(7));
        assert_eq!(users[1].entity_id, EntityId(5));
    }
    a.handle_message(&spawn_msg(7, 2, 1), 10);
    a.handle_message(&spawn_msg(7, 3, 1), 20);
    a.handle_message(&spawn_msg(99, 3, 1), 20);
    a.handle_message(
        &Message::GameEvent(GameEvent::PlayerHurt(PlayerHurtEvent { user_id: 7, health: 80 })),
        30,
    );
    a.handle_message(&Message::UserMessage(UserMessage::SayText2(SayText2Message {
        client: 0,
        raw: 1,
        kind: ChatMessageKind::NameChange,
        from: Some(String::from("Alice")),
        text: String::from("Bob"),
    })), 40);
    a.handle_string_entry("userinfo", 8, Some(&user_entry("Alice", 7, "[U:1:2]")));
    let users = &a.borrow_output().users;
    let alice = &users[1];
    assert_eq!(alice.classes.get(Class::Scout), 2);
    assert_eq!(alice.team, Team::Blue);
    assert_eq!(alice.health, vec![(30, 80)]);
    assert_eq!(alice.name, "Bob");
    assert_eq!(alice.entity_id, EntityId(9));
    assert!(users[0] != users[1]);
}

#[test]
fn chat_lines_lose_their_formatting() {
    let mut a = Analyser::new();
    a.handle_message(&Message::UserMessage(UserMessage::SayText2(SayText2Message {
        client: 0,
        raw: 1,
        kind: ChatMessageKind::ChatAll,
        from: Some(String::from("Bob")),
        text: String::from("\u{7}FF0000hi\u{1} there\u{8}11223344!"),
    })), 9);
    a.handle_message(&Message::UserMessage(UserMessage::SayText2(SayText2Message {
        client: 0,
        raw: 1,
        kind: ChatMessageKind::ChatTeam,
        from: None,
        text: String::from("plain"),
    })), 10);
    let chat = &a.borrow_output().chat;
    assert_eq!(chat.len(), 2);
    assert_eq!(chat[0].text, "hi there!");
    assert_eq!(chat[0].from, "Bob");
    assert_eq!(chat[0].kind, ChatMessageKind::ChatAll);
    assert_eq!(chat[0].tick, 9);
    assert_eq!(chat[1].from, "");
    assert_eq!(chat[1].text, "plain");
}

#[test]
fn parse_u32_reads_decimals() {
    assert_eq!(parse_u32("001"), Some(1));
    assert_eq!(parse_u32("+42"), Some(42));
    assert_eq!(parse_u32("4294967295"), Some(4294967295));
    assert_eq!(parse_u32("4294967296"), None);
    assert_eq!(parse_u32(""), None);
    assert_eq!(parse_u32("+"), None);
    assert_eq!(parse_u32("1a"), None);
}

fn def(name: &str, kind: PropKind) -> PropDefinition {
    PropDefinition { name: String::from(name), kind, changes_often: false, table_ref: None }
}

#[test]
fn entities_feed_player_angles_and_classes() {
    let tables = vec![
        PropSchema {
            name: String::from("DT_TFLocalPlayerExclusive"),
            props: vec![def("m_angEyeAngles[0]", PropKind::Float), def("m_angEyeAngles[1]", PropKind::Float)],
            excludes: vec![],
        },
        PropSchema {
            name: String::from("m_iPlayerClass"),
            props: vec![def("001", PropKind::Int), def("002", PropKind::Int)],
            excludes: vec![],
        },
    ];
    let classes = vec![
        ServerClass { id: 0, name: String::from("CTFPlayer"), data_table: String::from("DT_TFPlayer") },
        ServerClass {
            id: 1,
            name: String::from("CTFPlayerResource"),
            data_table: String::from("DT_TFPlayerResource"),
        },
    ];
    let mut a = Analyser::new();
    a.handle_data_tables(&tables, &classes);
    let player = PacketEntity {
        server_class: 0,
        entity_index: EntityId(1),
        props: vec![
            SendProp {
                identifier: PropIdentifier::new("DT_TFLocalPlayerExclusive", "m_angEyeAngles[1]"),
                value: PropValue::Float(90.5f32.to_bits()),
            },
            SendProp {
                identifier: PropIdentifier::new("DT_TFNonLocalPlayerExclusive", "m_angEyeAngles[0]"),
                value: PropValue::Float(10.0f32.to_bits()),
            },
        ],
        pvs: Pvs::Enter,
    };
    a.handle_message(&Message::PacketEntities(None, vec![]), 1);
    a.handle_message(&Message::PacketEntities(Some(50), vec![player]), 51);
    let resource = PacketEntity {
        server_class: 1,
        entity_index: EntityId(40),
        props: vec![
            SendProp {
                identifier: PropIdentifier::new("m_iPlayerClass", "001"),
                value: PropValue::Integer(3),
            },
            SendProp {
                identifier: PropIdentifier::new("m_iPlayerClass", "002"),
                value: PropValue::Integer(4),
            },
        ],
        pvs: Pvs::Preserve,
    };
    a.handle_entity(&resource, 60);
    let s = a.into_output();
    assert_eq!(s.players.len(), 1);
    assert_eq!(s.players[0].entity, EntityId(1));
    assert_eq!(s.players[0].view_angle, vec![(50, 90.5f32.to_bits())]);
    assert_eq!(s.players[0].pitch_angle, vec![(50, 10.0f32.to_bits())]);
    assert_eq!(s.players[0].class, Class::Soldier);
}

#[test]
fn class_names_and_codes() {
    assert_eq!(Class::from_name("scout"), Some(Class::Scout));
    assert_eq!(Class::from_name("engineer"), Some(Class::Engineer));
    assert_eq!(Class::from_name("Scout"), None);
    assert_eq!(Class::Demoman.name(), "demoman");
    assert_eq!(Class::from_code(1), Some(Class::Scout));
    assert_eq!(Class::from_code(0), Some(Class::Other));
    assert_eq!(Class::from_code(10), None);
}

#[test]
fn first_net_tick_wins_even_at_zero() {
    let mut a = Analyser::new();
    a.handle_message(&Message::NetTick(0), 1);
    a.handle_message(&Message::NetTick(7), 2);
    assert_eq!(a.into_output().start_tick, 0);
}

#[test]
fn class_from_text_name_digit_or_code() {
    assert_eq!(Class::from_text("scout"), Some(Class::Scout));
    assert_eq!(Class::from_text("1"), Some(Class::Scout));
    assert_eq!(Class::from_code(1), Some(Class::Scout));
    assert_eq!(Class::from_text("0"), Some(Class::Other));
    assert_eq!(Class::from_text("x"), None);
    assert_eq!(Class::from_text("12"), None);
}

#[test]
fn class_list_from_counts_keeps_last_count() {
    let list = ClassList::from_counts(&vec![(Class::Scout, 3), (Class::Medic, 2), (Class::Scout, 5)]);
    assert_eq!(list, ClassList([0, 5, 0, 0, 0, 2, 0, 0, 0, 0]));
    assert_eq!(ClassList::from_counts(&vec![]), ClassList::new());
}

#[test]
fn entering_player_gets_one_sample_per_angle_property() {
    let flat = |table: &str, name: &str| FlatProp {
        identifier: PropIdentifier::new(table, name),
        table: String::from(table),
        name: String::from(name),
        kind: PropKind::Float,
        changes_often: false,
    };
    let schema = vec![
        flat("DT_TFLocalPlayerExclusive", "m_angEyeAngles[0]"),
        flat("DT_TFLocalPlayerExclusive", "m_angEyeAngles[1]"),
        flat("DT_TFNonLocalPlayerExclusive", "m_angEyeAngles[1]"),
        flat("DT_Other", "m_flSpeed"),
    ];
    let delta = (0..4).map(|i| (i, PropValue::Float(i as u32))).collect();
    let entity = decode_entity(&schema, 0, EntityId(3), Pvs::Enter, delta).unwrap();
    let mut a = Analyser::new();
    a.handle_data_tables(&vec![], &vec![ServerClass {
        id: 0,
        name: String::from("CTFPlayer"),
        data_table: String::from("DT_TFPlayer"),
    }]);
    a.handle_entity(&entity, 77);
    let s = a.into_output();
    assert_eq!(s.players[0].view_angle, vec![(77, 1), (77, 2)]);
    assert_eq!(s.players[0].pitch_angle, vec![(77, 0)]);
}
