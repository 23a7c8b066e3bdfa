use mcpanel::players::{get_players, split_online, CachedUser};

fn user(name: &str, uuid: &str, expires_on: u64) -> CachedUser<u64> {
    CachedUser { name: name.to_string(), uuid: uuid.to_string(), expires_on }
}

#[test]
fn online_players_have_no_last_join_time() {
    let cache = vec![user("a", "u1", 10), user("b", "u2", 20), user("c", "u3", 30)];
    let players = get_players(cache, &vec!["u2".to_string()]);
    assert_eq!(players.len(), 3);
    assert_eq!(players[0].last_join_time, Some(10));
    assert_eq!(players[1].last_join_time, None);
    assert_eq!(players[1].name, "b");
    assert_eq!(players[2].last_join_time, Some(30));
    let (online, offline) = split_online(players);
    assert_eq!(online.len(), 1);
    assert_eq!(online[0].uuid, "u2");
    assert_eq!(offline.len(), 2);
    assert_eq!(offline[0].uuid, "u1");
    assert_eq!(offline[1].uuid, "u3");
}

#[test]
fn no_one_online() {
    let players = get_players(vec![user("a", "u1", 10)], &vec![]);
    let (online, offline) = split_online(players);
    assert!(online.is_empty());
    assert_eq!(offline.len(), 1);
}

#[test]
fn uuids_from_the_player_list() {
    let body = "There are 2 of a max of 20 players online: Alex (069a79f4-44e9-4726-a5be-fca90e38aaf5), Steve (853c80ef-3c37-49fd-aa49-938b674adae6)";
    assert_eq!(
        mcpanel::players::extract_uuids(body),
        vec![
            "069a79f4-44e9-4726-a5be-fca90e38aaf5".to_string(),
            "853c80ef-3c37-49fd-aa49-938b674adae6".to_string()
        ]
    );
    assert!(mcpanel::players::extract_uuids("no one online").is_empty());
}
