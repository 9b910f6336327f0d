use chat_server::server::{
    ChatServer, ClientMessage, Connect, Disconnect, Join, ListRooms, Notice,
};
use std::collections::BTreeSet;

type Server = ChatServer<&'static str>;

fn connect(server: &mut Server, addr: &'static str) -> (usize, Vec<Notice>) {
    assert!(server.can_connect());
    server.connect(Connect { addr })
}

fn join(server: &mut Server, id: usize, room: &str) -> Vec<Notice> {
    assert!(server.has_session(id));
    server.join(
        Join { id, room_name: room.to_string() },
        "left at".to_string(),
        "joined at".to_string(),
    )
}

fn say(server: &mut Server, id: usize, room: &str, content: &str) -> Vec<Notice> {
    server.broadcast(ClientMessage {
        id,
        room_name: room.to_string(),
        content: content.to_string(),
        name: "ann".to_string(),
        time: "12:00".to_string(),
    })
}

fn rooms(server: &Server) -> BTreeSet<String> {
    let names = server.list_rooms(ListRooms);
    let set: BTreeSet<String> = names.iter().cloned().collect();
    assert_eq!(set.len(), names.len());
    set
}

fn set_of(names: &[&str]) -> BTreeSet<String> {
    names.iter().map(|n| n.to_string()).collect()
}

fn recipients(notice: &Notice) -> BTreeSet<usize> {
    let set: BTreeSet<usize> = notice.to.iter().copied().collect();
    assert_eq!(set.len(), notice.to.len());
    set
}

fn ids(list: &[usize]) -> BTreeSet<usize> {
    list.iter().copied().collect()
}

#[test]
fn new_server_has_only_the_main_room() {
    let server = Server::new();
    assert_eq!(rooms(&server), set_of(&["main"]));
    assert_eq!(server.timestamp(), 0);
    assert!(!server.has_session(1));
    assert!(server.session(1).is_none());
}

#[test]
fn first_connect_tells_nobody() {
    let mut server = Server::new();
    let (id, notices) = connect(&mut server, "s1");
    assert_eq!(id, 1);
    assert_eq!(notices.len(), 1);
    assert!(notices[0].record.is_none());
    assert_eq!(notices[0].message.0, "someone joined");
    assert!(notices[0].to.is_empty());
    assert_eq!(server.session(1), Some(&"s1"));
}

#[test]
fn connect_tells_the_main_room_but_not_the_newcomer() {
    let mut server = Server::new();
    connect(&mut server, "s1");
    connect(&mut server, "s2");
    let (id, notices) = connect(&mut server, "s3");
    assert_eq!(id, 3);
    assert_eq!(notices.len(), 1);
    assert_eq!(notices[0].message.0, "someone joined");
    assert_eq!(recipients(&notices[0]), ids(&[1, 2]));
    assert_eq!(server.timestamp(), 0);
}

#[test]
fn connected_sessions_never_share_an_id() {
    let mut server = Server::new();
    let mut live: BTreeSet<usize> = BTreeSet::new();
    let mut turn: usize = 0;
    while turn < 300 {
        if turn % 4 == 3 {
            let gone = *live.iter().nth(turn % live.len()).unwrap();
            server.disconnect(Disconnect { id: gone });
            live.remove(&gone);
            assert!(!server.has_session(gone));
        } else {
            let (id, _) = connect(&mut server, "s");
            assert!(id >= 1);
            assert!(live.insert(id));
        }
        for id in live.iter() {
            assert!(server.has_session(*id));
        }
        turn += 1;
    }
}

#[test]
fn n_connects_give_ids_one_to_n() {
    let mut server = Server::new();
    let mut got = Vec::new();
    for _ in 0..25 {
        got.push(connect(&mut server, "s").0);
    }
    let expected: Vec<usize> = (1..=25).collect();
    assert_eq!(got, expected);
    for id in 1..=25 {
        assert!(server.has_session(id));
    }
    assert!(!server.has_session(26));
    let told = say(&mut server, 1, "main", "roll call");
    assert_eq!(recipients(&told[0]), (1..=25).collect::<BTreeSet<usize>>());
}

#[test]
fn scenario_reconnect_reuses_the_freed_id() {
    let mut server = Server::new();
    assert_eq!(connect(&mut server, "s1").0, 1);
    assert_eq!(connect(&mut server, "s2").0, 2);
    server.disconnect(Disconnect { id: 1 });
    assert_eq!(connect(&mut server, "s3").0, 1);
    assert_eq!(rooms(&server), set_of(&["main"]));
    assert_eq!(server.session(1), Some(&"s3"));
    assert_eq!(server.session(2), Some(&"s2"));
    assert_eq!(connect(&mut server, "s4").0, 3);
}

#[test]
fn disconnect_tells_those_who_stay() {
    let mut server = Server::new();
    connect(&mut server, "s1");
    connect(&mut server, "s2");
    connect(&mut server, "s3");
    let notices = server.disconnect(Disconnect { id: 2 });
    assert_eq!(notices.len(), 1);
    assert!(notices[0].record.is_none());
    assert_eq!(notices[0].message.0, "someone disconnected");
    assert_eq!(recipients(&notices[0]), ids(&[1, 3]));
    assert!(!server.has_session(2));
    assert!(server.session(2).is_none());
    let told = say(&mut server, 1, "main", "still here");
    assert_eq!(recipients(&told[0]), ids(&[1, 3]));
}

#[test]
fn disconnect_of_an_unknown_id_does_nothing() {
    let mut server = Server::new();
    connect(&mut server, "s1");
    assert!(server.disconnect(Disconnect { id: 9 }).is_empty());
    assert!(server.disconnect(Disconnect { id: 0 }).is_empty());
    assert_eq!(server.disconnect(Disconnect { id: 1 }).len(), 1);
    assert!(server.disconnect(Disconnect { id: 1 }).is_empty());
    assert_eq!(connect(&mut server, "s2").0, 1);
    assert_eq!(connect(&mut server, "s3").0, 2);
    assert_eq!(rooms(&server), set_of(&["main"]));
}

#[test]
fn scenario_join_moves_the_session_and_makes_two_records() {
    let mut server = Server::new();
    connect(&mut server, "s1");
    connect(&mut server, "s2");
    let notices = join(&mut server, 2, "room-b");
    assert_eq!(notices.len(), 2);

    let left = notices[0].record.as_ref().unwrap();
    assert_eq!(left.name(), "system");
    assert_eq!(left.timestamp(), 1);
    assert_eq!(left.content(), "id: 2 disconnected");
    assert_eq!(left.time(), "left at");
    assert_eq!(left.status(), 2);
    assert_eq!(notices[0].message.0, left.to_msg());
    assert_eq!(recipients(&notices[0]), ids(&[1]));

    let joined = notices[1].record.as_ref().unwrap();
    assert_eq!(joined.name(), "system");
    assert_eq!(joined.timestamp(), 2);
    assert_eq!(joined.content(), "id: 2 connected");
    assert_eq!(joined.time(), "joined at");
    assert_eq!(joined.status(), 1);
    assert_eq!(
        notices[1].message.0,
        "{\"name\":\"system\",\"timestamp\":2,\"content\":\"id: 2 connected\",\"time\":\"joined at\",\"status\":1}"
    );
    assert_eq!(recipients(&notices[1]), ids(&[2]));

    assert_eq!(rooms(&server), set_of(&["main", "room-b"]));
    let in_main = say(&mut server, 1, "main", "x");
    assert_eq!(recipients(&in_main[0]), ids(&[1]));
    let in_b = say(&mut server, 2, "room-b", "y");
    assert_eq!(recipients(&in_b[0]), ids(&[2]));
}

#[test]
fn join_leaves_every_prior_room() {
    let mut server = Server::new();
    connect(&mut server, "s1");
    connect(&mut server, "s2");
    connect(&mut server, "s3");
    join(&mut server, 3, "a");
    join(&mut server, 3, "b");
    join(&mut server, 2, "b");
    join(&mut server, 3, "c");
    let mut found = Vec::new();
    for room in ["main", "a", "b", "c"] {
        let told = say(&mut server, 1, room, "who is here");
        if told[0].to.contains(&3) {
            found.push(room);
        }
    }
    assert_eq!(found, vec!["c"]);
    let in_b = say(&mut server, 1, "b", "z");
    assert_eq!(recipients(&in_b[0]), ids(&[2]));
}

#[test]
fn main_room_stays_when_it_is_empty() {
    let mut server = Server::new();
    connect(&mut server, "s1");
    join(&mut server, 1, "elsewhere");
    assert_eq!(rooms(&server), set_of(&["main", "elsewhere"]));
    let told = say(&mut server, 1, "main", "anyone");
    assert!(told[0].to.is_empty());
    server.disconnect(Disconnect { id: 1 });
    assert_eq!(rooms(&server), set_of(&["main", "elsewhere"]));
}

#[test]
fn join_of_the_current_room_still_makes_both_notices() {
    let mut server = Server::new();
    connect(&mut server, "s1");
    connect(&mut server, "s2");
    let notices = join(&mut server, 2, "main");
    assert_eq!(notices.len(), 2);
    assert_eq!(notices[0].record.as_ref().unwrap().status(), 2);
    assert_eq!(recipients(&notices[0]), ids(&[1]));
    assert_eq!(notices[1].record.as_ref().unwrap().status(), 1);
    assert_eq!(recipients(&notices[1]), ids(&[1, 2]));
    assert_eq!(rooms(&server), set_of(&["main"]));
    assert_eq!(server.timestamp(), 2);
}

#[test]
fn broadcast_reaches_every_member_once() {
    let mut server = Server::new();
    let a = connect(&mut server, "open").0;
    let b = connect(&mut server, "open").0;
    let c = connect(&mut server, "closed").0;
    let d = connect(&mut server, "open").0;
    join(&mut server, a, "r");
    join(&mut server, b, "r");
    join(&mut server, c, "r");
    let notices = say(&mut server, a, "r", "hello");
    assert_eq!(notices.len(), 1);
    assert_eq!(recipients(&notices[0]), ids(&[a, b, c]));
    assert!(!notices[0].to.contains(&d));
    let mut delivered = Vec::new();
    for to in notices[0].to.iter() {
        if server.session(*to) == Some(&"open") {
            delivered.push(*to);
        }
    }
    assert_eq!(ids(&delivered), ids(&[a, b]));
}

#[test]
fn broadcast_makes_a_normal_record() {
    let mut server = Server::new();
    connect(&mut server, "s1");
    let notices = server.broadcast(ClientMessage {
        id: 1,
        room_name: "main".to_string(),
        content: "say \"hi\"".to_string(),
        name: "ann".to_string(),
        time: "12:00".to_string(),
    });
    assert_eq!(notices.len(), 1);
    let record = notices[0].record.as_ref().unwrap();
    assert_eq!(record.name(), "ann");
    assert_eq!(record.timestamp(), 1);
    assert_eq!(record.content(), "say \"hi\"");
    assert_eq!(record.time(), "12:00");
    assert_eq!(record.status(), 0);
    assert_eq!(
        notices[0].message.0,
        "{\"name\":\"ann\",\"timestamp\":1,\"content\":\"say \\\"hi\\\"\",\"time\":\"12:00\",\"status\":0}"
    );
    assert_eq!(recipients(&notices[0]), ids(&[1]));
}

#[test]
fn broadcast_to_an_unknown_room_is_logged_and_reaches_nobody() {
    let mut server = Server::new();
    connect(&mut server, "s1");
    let notices = say(&mut server, 1, "nowhere", "hello");
    assert_eq!(notices.len(), 1);
    assert_eq!(notices[0].record.as_ref().unwrap().timestamp(), 1);
    assert!(notices[0].to.is_empty());
    assert_eq!(rooms(&server), set_of(&["main"]));
}

#[test]
fn sequence_numbers_rise_by_one_across_rooms() {
    let mut server = Server::new();
    connect(&mut server, "s1");
    connect(&mut server, "s2");
    let mut seen = Vec::new();
    let mut note = |notices: Vec<Notice>| {
        for n in notices {
            if let Some(r) = n.record {
                seen.push(r.timestamp());
            }
        }
    };
    note(say(&mut server, 1, "main", "a"));
    note(join(&mut server, 2, "side"));
    note(say(&mut server, 2, "side", "b"));
    note(say(&mut server, 1, "main", "c"));
    note(connect(&mut server, "s3").1);
    note(join(&mut server, 1, "side"));
    note(server.disconnect(Disconnect { id: 2 }));
    note(say(&mut server, 3, "other", "d"));
    let expected: Vec<usize> = (1..=8).collect();
    assert_eq!(seen, expected);
    assert_eq!(server.timestamp(), 8);
}
