//! Tests for the metadata descriptor, ward correlation and snapshots.

use rofl_decode::metadata::{patch_stem_for_version, Metadata};
use rofl_decode::packet::{PathPacket, WardSpawnPacket};
use rofl_decode::report::{build_player_states, correlate_wards, get_replay_info, sort_by_time};
use rofl_decode::ReplayError;

fn stats_entry(name: &str, skin: &str, team: &str, win: &str) -> String {
    format!(
        "{{\"NAME\":\"{}\",\"SKIN\":\"{}\",\"TEAM\":\"{}\",\"WIN\":\"{}\"}}",
        name, skin, team, win
    )
}

/// A replay buffer holding only framing and a metadata descriptor with
/// ten rostered players, the first team winning.
fn replay_with_metadata(win_first: bool) -> Vec<u8> {
    let mut entries: Vec<String> = Vec::new();
    for i in 0..10 {
        let team = if i < 5 { "100" } else { "200" };
        let win = if (i < 5) == win_first { "Win" } else { "Fail" };
        entries.push(stats_entry(
            &format!("player{}", i),
            &format!("champ{}", i),
            team,
            win,
        ));
    }
    let stats = format!("[{}]", entries.join(","));
    let stats_escaped = stats.replace('"', "\\\"");
    let doc = format!(
        "{{\"gameLength\":1234567,\"statsJson\":\"{}\"}}",
        stats_escaped
    );

    let mut buffer = vec![0u8; 16];
    buffer.extend_from_slice(b"14.1");
    buffer.extend_from_slice(&[0u8; 9]);
    buffer.extend_from_slice(doc.as_bytes());
    buffer.extend_from_slice(&(doc.len() as u32).to_le_bytes());
    buffer
}

fn test_metadata() -> Metadata {
    Metadata::parse(&replay_with_metadata(true)).unwrap()
}

#[test]
fn metadata_fields_decode() {
    let md = test_metadata();
    assert_eq!(md.version, "14.1");
    assert_eq!(md.game_len, 1234567);
    assert_eq!(md.winning_team, "Blue");
    assert_eq!(md.players.len(), 10);
    assert_eq!(md.players[0].name, "player0");
    assert_eq!(md.players[0].skin, "champ0");
    assert_eq!(md.players[0].team, "Blue");
    assert_eq!(md.players[0].position, "Top");
    assert_eq!(md.players[4].position, "Support");
    assert_eq!(md.players[5].position, "Top");
    assert_eq!(md.players[6].team, "Red");
    assert_eq!(md.players[9].position, "Support");
}

#[test]
fn metadata_red_winner() {
    let md = Metadata::parse(&replay_with_metadata(false)).unwrap();
    assert_eq!(md.winning_team, "Red");
}

#[test]
fn metadata_rejects_bad_team_code() {
    let stats = format!("[{}]", stats_entry("a", "b", "300", "Win"));
    let stats_escaped = stats.replace('"', "\\\"");
    let doc = format!("{{\"gameLength\":1,\"statsJson\":\"{}\"}}", stats_escaped);
    let mut buffer = vec![0u8; 16];
    buffer.extend_from_slice(b"14.1");
    buffer.extend_from_slice(doc.as_bytes());
    buffer.extend_from_slice(&(doc.len() as u32).to_le_bytes());
    assert_eq!(
        Metadata::parse(&buffer).unwrap_err(),
        ReplayError::MetadataParseError
    );
}

#[test]
fn metadata_rejects_bad_json() {
    let mut buffer = vec![0u8; 16];
    buffer.extend_from_slice(b"14.1");
    buffer.extend_from_slice(b"not json");
    buffer.extend_from_slice(&8u32.to_le_bytes());
    assert_eq!(
        Metadata::parse(&buffer).unwrap_err(),
        ReplayError::MetadataParseError
    );
}

#[test]
fn metadata_rejects_short_buffer() {
    assert!(Metadata::parse(&[0u8; 10]).is_err());
}

#[test]
fn player_lookup_by_id() {
    let md = test_metadata();
    let start = 0x40000001u32;
    assert_eq!(md.get_player_from_id(start, start).unwrap().name, "player0");
    assert_eq!(
        md.get_player_from_id(start + 9, start).unwrap().name,
        "player9"
    );
    assert!(md.get_player_from_id(start + 10, start).is_none());
    assert!(md.get_player_from_id(start - 1, start).is_none());
}

#[test]
fn patch_stem_drops_last_segment() {
    assert_eq!(patch_stem_for_version("14.9.1").unwrap(), "14-9");
    assert_eq!(patch_stem_for_version("14.1").unwrap(), "14");
    assert_eq!(patch_stem_for_version("14").unwrap(), "14");
}

fn ward(name: &str, t_ms: u32, id: u32, owner: u32, x: i32, y: i32) -> WardSpawnPacket {
    WardSpawnPacket {
        timestamp_ms: t_ms,
        name: name.to_string(),
        id,
        owner_id: owner,
        x,
        y,
    }
}

#[test]
fn ward_lifetime_pairs_spawn_and_corpse() {
    let md = test_metadata();
    let start = 100u32;
    let packets = vec![
        ward("SightWard", 10_000, 77, start, 1000, 2000),
        ward("SightWardCorpse", 100_000, 78, start, 1000, 2000),
    ];
    let entries = correlate_wards(packets, &md, start);
    assert_eq!(entries.len(), 1);
    assert_eq!(entries[0].name, "SightWard");
    assert_eq!(entries[0].timestamp_ms, 10_000);
    assert_eq!(entries[0].duration_ms, 90_000);
    assert_eq!(entries[0].pos, (1000, 2000));
    assert_eq!(entries[0].team, "Blue");
    assert_eq!(entries[0].owner_name, "player0");
    assert_eq!(entries[0].owner_team, "Blue");
    assert_eq!(entries[0].owner_role, "Top");
}

#[test]
fn corpse_without_placement_is_silent() {
    let md = test_metadata();
    let packets = vec![ward("SightWardCorpse", 50_000, 78, 100, 1, 2)];
    let entries = correlate_wards(packets, &md, 100);
    assert_eq!(entries.len(), 0);
}

#[test]
fn first_placement_wins_a_position() {
    let md = test_metadata();
    let start = 100u32;
    let packets = vec![
        ward("YellowTrinket", 1_000, 50, start, 10, 20),
        ward("JammerDevice", 2_000, 51, start + 1, 10, 20),
        ward("YellowTrinketCorpse", 9_000, 52, start, 10, 20),
    ];
    let entries = correlate_wards(packets, &md, start);
    assert_eq!(entries.len(), 1);
    assert_eq!(entries[0].name, "YellowTrinket");
    assert_eq!(entries[0].duration_ms, 8_000);
    assert_eq!(entries[0].owner_role, "Top");
}

#[test]
fn unrelated_names_change_nothing() {
    let md = test_metadata();
    let packets = vec![
        ward("SomethingElse", 1_000, 50, 100, 10, 20),
        ward("SightWardCorpse", 2_000, 51, 100, 10, 20),
    ];
    let entries = correlate_wards(packets, &md, 100);
    assert_eq!(entries.len(), 0);
}

fn path(t_ms: u32, id: u32, x: i32, y: i32) -> PathPacket {
    PathPacket {
        timestamp_ms: t_ms,
        id,
        speed: 325,
        waypoints: vec![(x, y)],
    }
}

#[test]
fn close_updates_emit_one_snapshot() {
    let md = test_metadata();
    let start = 100u32;
    // two updates 0.4 s apart: the second does not cross the one-second
    // gate, so exactly one snapshot is emitted
    let packets = vec![path(10_000, start, 4000, 5000), path(10_400, start, 4100, 5100)];
    let snaps = build_player_states(packets, &md, start);
    assert_eq!(snaps.len(), 1);
    assert_eq!(snaps[0].timestamp_ms, 10_000);
    assert_eq!(snaps[0].players.len(), 1);
    assert_eq!(snaps[0].players[0].name, "player0");
    assert_eq!(snaps[0].players[0].role, "Top");
    assert_eq!(snaps[0].players[0].team, "Blue");
    assert_eq!(snaps[0].players[0].champ, "champ0");
    assert_eq!(snaps[0].players[0].pos, (4000, 5000));
}

#[test]
fn spaced_updates_emit_two_snapshots() {
    let md = test_metadata();
    let start = 100u32;
    let packets = vec![path(10_000, start, 4000, 5000), path(11_000, start + 1, 4100, 5100)];
    let snaps = build_player_states(packets, &md, start);
    assert_eq!(snaps.len(), 2);
    assert_eq!(snaps[1].timestamp_ms, 11_000);
    assert_eq!(snaps[1].players.len(), 2);
}

#[test]
fn unknown_ids_are_ignored() {
    let md = test_metadata();
    let start = 100u32;
    let packets = vec![path(10_000, 9999, 4000, 5000)];
    let snaps = build_player_states(packets, &md, start);
    assert_eq!(snaps.len(), 1);
    assert_eq!(snaps[0].players.len(), 0);
}

#[test]
fn sort_by_time_is_stable() {
    let a = ward("SightWard", 2_000, 1, 0, 0, 0);
    let b = ward("JammerDevice", 1_000, 2, 0, 0, 0);
    let c = ward("YellowTrinket", 2_000, 3, 0, 0, 0);
    let sorted = sort_by_time(vec![a, b, c]);
    assert_eq!(sorted[0].id, 2);
    assert_eq!(sorted[1].id, 1);
    assert_eq!(sorted[2].id, 3);
}

#[test]
fn report_is_deterministic() {
    let md1 = test_metadata();
    let md2 = test_metadata();
    let start = 100u32;
    let wards = vec![
        ward("SightWard", 10_000, 77, start, 1000, 2000),
        ward("SightWardCorpse", 100_000, 78, start, 1000, 2000),
    ];
    let wards2 = vec![
        ward("SightWard", 10_000, 77, start, 1000, 2000),
        ward("SightWardCorpse", 100_000, 78, start, 1000, 2000),
    ];
    let paths = vec![path(10_000, start, 4000, 5000)];
    let paths2 = vec![path(10_000, start, 4000, 5000)];
    let r1 = get_replay_info(md1, wards, paths, start);
    let r2 = get_replay_info(md2, wards2, paths2, start);
    assert_eq!(r1.wards.len(), r2.wards.len());
    assert_eq!(r1.wards[0].name, r2.wards[0].name);
    assert_eq!(r1.wards[0].duration_ms, r2.wards[0].duration_ms);
    assert_eq!(r1.players_state.len(), r2.players_state.len());
    assert_eq!(
        r1.players_state[0].players[0].pos,
        r2.players_state[0].players[0].pos
    );
    assert_eq!(r1.metadata.winning_team, r2.metadata.winning_team);
}

#[test]
fn report_sorts_unordered_packets() {
    let md = test_metadata();
    let start = 100u32;
    // the corpse arrives before the spawn in stream order; sorting by
    // timestamp pairs them anyway
    let wards = vec![
        ward("SightWardCorpse", 100_000, 78, start, 1000, 2000),
        ward("SightWard", 10_000, 77, start, 1000, 2000),
    ];
    let r = get_replay_info(md, wards, vec![], start);
    assert_eq!(r.wards.len(), 1);
    assert_eq!(r.wards[0].duration_ms, 90_000);
    assert_eq!(r.players_state.len(), 0);
}
