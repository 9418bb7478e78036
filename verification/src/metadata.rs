//! The trailing metadata descriptor of a replay: version, game length,
//! roster and outcome.
//!
//! The descriptor is a JSON document held in the last bytes of the file.
//! JSON access goes through named query results, so every decoded field
//! is bound to its source member; the team and role mapping, the winner
//! rule and all slicing are verified here.

use vstd::prelude::*;
use crate::ReplayError;
use crate::jsonval::{
    json_arr_len, json_arr_len_of, json_entry_str_field, json_entry_str_field_of, json_i64_field,
    json_i64_field_of, json_str_field, json_str_field_of,
};
use crate::util::{le32_at, parse_u32, str_eq_chars, string_from_utf8};
use vstd::slice::{slice_subrange, slice_to_vec};
use vstd::string::StringExecFns;

verus! {

broadcast use vstd::string::group_string_axioms;

/// One rostered player.
#[derive(Debug)]
pub struct Player {
    pub name: String,
    pub skin: String,
    pub team: String,
    pub position: String,
}

/// The mathematical image of a [`Player`].
pub ghost struct PlayerSpec {
    pub name: Seq<char>,
    pub skin: Seq<char>,
    pub team: Seq<char>,
    pub position: Seq<char>,
}

impl View for Player {
    type V = PlayerSpec;

    open spec fn view(&self) -> PlayerSpec {
        PlayerSpec { name: self.name@, skin: self.skin@, team: self.team@, position: self.position@ }
    }
}

/// The decoded descriptor.
#[derive(Debug)]
pub struct Metadata {
    pub version: String,
    pub game_len: u64,
    pub winning_team: String,
    pub players: Vec<Player>,
}

/// The mathematical image of a [`Metadata`].
pub ghost struct MetadataSpec {
    pub version: Seq<char>,
    pub game_len: u64,
    pub winning_team: Seq<char>,
    pub players: Seq<PlayerSpec>,
}

impl View for Metadata {
    type V = MetadataSpec;

    open spec fn view(&self) -> MetadataSpec {
        MetadataSpec {
            version: self.version@,
            game_len: self.game_len,
            winning_team: self.winning_team@,
            players: self.players@.map_values(|p: Player| p@),
        }
    }
}

/// The team name for a roster team code: 100 is Blue, 200 is Red, anything
/// else is rejected.
pub fn team_name_of_code(code: &str) -> (r: Result<String, ReplayError>)
    ensures
        code@ == "100"@ ==> (r matches Ok(t) && t@ == "Blue"@),
        code@ == "200"@ ==> (r matches Ok(t) && t@ == "Red"@),
        code@ != "100"@ && code@ != "200"@ ==> (r matches Err(e) && e
            == ReplayError::MetadataParseError),
{
    proof {
        reveal_strlit("100");
        reveal_strlit("200");
        assert("100"@[0] == '1');
        assert("200"@[0] == '2');
        assert("100"@ != "200"@);
    }
    if str_eq_chars(code, "100") {
        Ok(String::from_str("Blue"))
    } else if str_eq_chars(code, "200") {
        Ok(String::from_str("Red"))
    } else {
        Err(ReplayError::MetadataParseError)
    }
}

/// The role at a roster index, cycling through the five positions.
pub open spec fn spec_role_of_index(i: int) -> Seq<char> {
    if i % 5 == 0 {
        "Top"@
    } else if i % 5 == 1 {
        "Jungle"@
    } else if i % 5 == 2 {
        "Mid"@
    } else if i % 5 == 3 {
        "Adc"@
    } else {
        "Support"@
    }
}

/// The role string at a roster index.
pub fn role_of_index(i: usize) -> (r: String)
    ensures
        r@ == spec_role_of_index(i as int),
{
    let m = i % 5;
    if m == 0 {
        String::from_str("Top")
    } else if m == 1 {
        String::from_str("Jungle")
    } else if m == 2 {
        String::from_str("Mid")
    } else if m == 3 {
        String::from_str("Adc")
    } else {
        String::from_str("Support")
    }
}

/// Blue wins exactly when some roster entry carries team code 100 and the
/// Win marker.
pub open spec fn spec_winning_team(pairs: Seq<(Seq<char>, Seq<char>)>) -> Seq<char> {
    if exists|i: int|
        0 <= i < pairs.len() && (#[trigger] pairs[i]).0 == "100"@ && pairs[i].1 == "Win"@ {
        "Blue"@
    } else {
        "Red"@
    }
}

/// Decides the winner from the `(team code, win marker)` pairs of the
/// roster.
pub fn winning_team(pairs: &Vec<(String, String)>) -> (r: String)
    ensures
        r@ == spec_winning_team(pairs@.map_values(|p: (String, String)| (p.0@, p.1@))),
{
    let ghost ps = pairs@.map_values(|p: (String, String)| (p.0@, p.1@));
    let mut i: usize = 0;
    while i < pairs.len()
        invariant
            i <= ps.len(),
            ps == pairs@.map_values(|p: (String, String)| (p.0@, p.1@)),
            forall|j: int| 0 <= j < i ==> !((#[trigger] ps[j]).0 == "100"@ && ps[j].1 == "Win"@),
        decreases ps.len() - i,
    {
        if str_eq_chars(pairs[i].0.as_str(), "100") && str_eq_chars(pairs[i].1.as_str(), "Win") {
            proof {
                assert(ps[i as int].0 == "100"@ && ps[i as int].1 == "Win"@);
            }
            return String::from_str("Blue");
        }
        i = i + 1;
    }
    String::from_str("Red")
}

/// The index of the last dot of `v`, or its length when it has none.
pub open spec fn spec_last_dot(v: Seq<char>) -> int
    decreases v.len(),
{
    if v.len() == 0 {
        0
    } else if v.last() == '.' {
        v.len() - 1
    } else {
        let c = spec_last_dot(v.drop_last());
        if c == v.len() - 1 {
            v.len() as int
        } else {
            c
        }
    }
}

/// The patch-file stem of a version string: the last dotted segment is
/// dropped and the remaining dots become hyphens, so version `14.9.1`
/// names the `14-9` patch.
pub open spec fn spec_patch_stem(v: Seq<char>) -> Seq<char> {
    v.subrange(0, spec_last_dot(v)).map_values(
        |c: char|
            if c == '.' {
                '-'
            } else {
                c
            },
    )
}

/// Builds the patch-file stem for a version string; `None` for a version
/// that is not plain ASCII.
#[verifier::loop_isolation(false)]
pub fn patch_stem_for_version(version: &str) -> (r: Option<String>)
    ensures
        match r {
            Some(s) => vstd::string::is_ascii(version) && s@ == spec_patch_stem(version@),
            None => !vstd::string::is_ascii(version),
        },
{
    if !version.is_ascii() {
        return None;
    }
    let n: usize = version.unicode_len();
    let mut cut: usize = n;
    let mut i: usize = n;
    while i > 0
        invariant
            i <= n,
            n == version@.len(),
            cut == n || (i <= cut < n && version@[cut as int] == '.'),
            cut < n ==> forall|j: int| cut < j < n ==> version@[j] != '.',
            cut == n ==> forall|j: int| i <= j < n ==> version@[j] != '.',
        decreases i,
    {
        i = i - 1;
        if cut == n && version.get_char(i) == '.' {
            cut = i;
        }
    }
    proof {
        lemma_last_dot_at(version@, cut as int);
    }
    let mut out = String::new();
    let mut k: usize = 0;
    proof {
        assert(out@ =~= spec_patch_stem(version@).subrange(0, 0));
    }
    while k < cut
        invariant
            k <= cut <= n,
            n == version@.len(),
            vstd::string::is_ascii(version),
            spec_last_dot(version@) == cut,
            out@ == spec_patch_stem(version@).subrange(0, k as int),
        decreases cut - k,
    {
        let c: char = version.get_char(k);
        if c == '.' {
            out.append("-");
            proof {
                reveal_strlit("-");
            }
        } else {
            let piece: &str = version.substring_ascii(k, k + 1);
            out.append(piece);
        }
        proof {
            assert(out@ =~= spec_patch_stem(version@).subrange(0, k + 1));
        }
        k = k + 1;
    }
    proof {
        assert(spec_patch_stem(version@).subrange(0, cut as int) =~= spec_patch_stem(version@));
    }
    Some(out)
}

/// When no dot follows position `cut`, and `cut` itself is a dot or the
/// end, `cut` is the last-dot index.
proof fn lemma_last_dot_at(v: Seq<char>, cut: int)
    requires
        0 <= cut <= v.len(),
        cut < v.len() ==> v[cut] == '.',
        forall|j: int| cut < j < v.len() ==> v[j] != '.',
        cut == v.len() ==> forall|j: int| 0 <= j < v.len() ==> v[j] != '.',
    ensures
        spec_last_dot(v) == cut,
    decreases v.len(),
{
    if v.len() == 0 {
    } else if v.last() == '.' {
        assert(cut == v.len() - 1);
    } else {
        assert(cut < v.len() - 1 || cut == v.len());
        if cut == v.len() {
            lemma_last_dot_at(v.drop_last(), v.len() - 1);
        } else {
            lemma_last_dot_at(v.drop_last(), cut);
        }
    }
}

/// The rostered player behind a numeric entity id: the roster entry at
/// `id - player_id_start`, when that index exists.
pub open spec fn spec_player_from_id(md: Metadata, id: u32, player_id_start: u32) -> Option<
    Player,
> {
    if player_id_start <= id && id - player_id_start < md.players@.len() {
        Some(md.players@[id - player_id_start])
    } else {
        None
    }
}

/// The JSON descriptor region of a replay buffer: the bytes measured by
/// the trailing four-byte length.
pub open spec fn spec_meta_doc(buffer: Seq<u8>) -> Seq<u8>
    recommends
        buffer.len() >= 4,
        le32_at(buffer, buffer.len() - 4) + 4 <= buffer.len(),
{
    buffer.subrange(buffer.len() - 4 - le32_at(buffer, buffer.len() - 4), buffer.len() - 4)
}

/// One roster entry holds the four expected string members and a known
/// team code.
pub open spec fn spec_roster_entry_ok(stats: Seq<char>, i: u64) -> bool {
    &&& json_entry_str_field(stats, i, "NAME"@) is Some
    &&& json_entry_str_field(stats, i, "SKIN"@) is Some
    &&& json_entry_str_field(stats, i, "WIN"@) is Some
    &&& (json_entry_str_field(stats, i, "TEAM"@) matches Some(t) && (t == "100"@ || t
        == "200"@))
}

/// Whether a replay buffer carries a decodable descriptor: UTF-8 version
/// bytes, the measured JSON region inside the buffer, a `gameLength`
/// integer, a `statsJson` array, and a well-formed roster entry at every
/// index.
pub open spec fn spec_metadata_parsable(buffer: Seq<u8>) -> bool {
    &&& buffer.len() >= 20
    &&& vstd::utf8::valid_utf8(buffer.subrange(16, 20))
    &&& le32_at(buffer, buffer.len() - 4) + 4 <= buffer.len()
    &&& json_i64_field(spec_meta_doc(buffer), "gameLength"@) is Some
    &&& (json_str_field(spec_meta_doc(buffer), "statsJson"@) matches Some(stats) && (
    json_arr_len(stats) matches Some(n) && forall|i: u64|
        i < n ==> spec_roster_entry_ok(stats, i)))
}

/// One decoded player is bound to its roster entry: name and skin as
/// stored there, the team name decided by the team code, the role by the
/// roster index.
pub open spec fn spec_player_matches(stats: Seq<char>, i: int, p: Player) -> bool {
    &&& json_entry_str_field(stats, i as u64, "NAME"@) == Some(p.name@)
    &&& json_entry_str_field(stats, i as u64, "SKIN"@) == Some(p.skin@)
    &&& (json_entry_str_field(stats, i as u64, "TEAM"@) matches Some(t) && ((t == "100"@
        && p.team@ == "Blue"@) || (t == "200"@ && p.team@ == "Red"@)))
    &&& p.position@ == spec_role_of_index(i)
}

/// The `(team code, win marker)` pairs of the first `n` roster entries.
pub open spec fn spec_roster_pairs(stats: Seq<char>, n: int) -> Seq<(Seq<char>, Seq<char>)> {
    Seq::new(
        n as nat,
        |i: int|
            (
                json_entry_str_field(stats, i as u64, "TEAM"@).unwrap(),
                json_entry_str_field(stats, i as u64, "WIN"@).unwrap(),
            ),
    )
}

/// Every field of a decoded descriptor is bound to its source: the
/// version to the four bytes at offset 16, the game length and roster to
/// the named members of the measured JSON region, and the winner to the
/// roster's team and win markers.
pub open spec fn spec_metadata_matches(buffer: Seq<u8>, m: Metadata) -> bool {
    let doc = spec_meta_doc(buffer);
    &&& m.version@ == vstd::utf8::decode_utf8(buffer.subrange(16, 20))
    &&& (json_i64_field(doc, "gameLength"@) matches Some(g) && m.game_len == g as u64)
    &&& (json_str_field(doc, "statsJson"@) matches Some(stats) && {
        &&& json_arr_len(stats) == Some(m.players@.len() as u64)
        &&& (forall|i: int|
            0 <= i < m.players@.len() ==> spec_player_matches(
                stats,
                i,
                #[trigger] m.players@[i],
            ))
        &&& m.winning_team@ == spec_winning_team(
            spec_roster_pairs(stats, m.players@.len() as int),
        )
    })
}

impl Metadata {
    /// Decodes the descriptor from a whole replay buffer: the four version
    /// bytes at offset 16, then the JSON document measured by the last
    /// four bytes of the file.  Succeeds exactly on a decodable buffer,
    /// and then every field is bound to its source.
    #[verifier::loop_isolation(false)]
    pub fn parse(buffer: &[u8]) -> (r: Result<Metadata, ReplayError>)
        ensures
            r is Ok <==> spec_metadata_parsable(buffer@),
            r matches Ok(m) ==> spec_metadata_matches(buffer@, m),
            r matches Err(e) ==> e == ReplayError::MetadataParseError,
    {
        if buffer.len() < 20 {
            return Err(ReplayError::MetadataParseError);
        }
        let version_bytes: Vec<u8> = slice_to_vec(slice_subrange(buffer, 16, 20));
        let version: String = match string_from_utf8(version_bytes) {
            Some(s) => s,
            None => {
                return Err(ReplayError::MetadataParseError);
            },
        };

        let len = buffer.len();
        let mut pos: usize = len - 4;
        let json_metadata_size: u32 = match parse_u32(buffer, &mut pos) {
            Ok(v) => v,
            Err(_) => {
                return Err(ReplayError::MetadataParseError);
            },
        };
        if json_metadata_size as u64 + 4 > len as u64 {
            return Err(ReplayError::MetadataParseError);
        }
        let region: &[u8] = slice_subrange(
            buffer,
            len - 4 - json_metadata_size as usize,
            len - 4,
        );
        proof {
            assert(region@ =~= spec_meta_doc(buffer@));
        }

        let game_len_i: i64 = match json_i64_field_of(region, "gameLength") {
            Some(v) => v,
            None => {
                return Err(ReplayError::MetadataParseError);
            },
        };
        let game_len: u64 = game_len_i as u64;

        let stats_text: String = match json_str_field_of(region, "statsJson") {
            Some(s) => s,
            None => {
                return Err(ReplayError::MetadataParseError);
            },
        };
        let count64: u64 = match json_arr_len_of(stats_text.as_str()) {
            Some(n) => n,
            None => {
                return Err(ReplayError::MetadataParseError);
            },
        };
        let count: usize = count64 as usize;
        let ghost stats = stats_text@;

        let mut players: Vec<Player> = Vec::new();
        let mut pairs: Vec<(String, String)> = Vec::new();
        proof {
            assert(pairs@.map_values(|p: (String, String)| (p.0@, p.1@)) =~= spec_roster_pairs(
                stats,
                0,
            ));
        }
        let mut i: usize = 0;
        while i < count
            invariant
                i <= count,
                players@.len() == i,
                stats_text@ == stats,
                forall|j: int|
                    0 <= j < i ==> spec_player_matches(stats, j, #[trigger] players@[j]),
                forall|j: int|
                    0 <= j < i ==> #[trigger] json_entry_str_field(stats, j as u64, "WIN"@)
                        is Some,
                pairs@.map_values(|p: (String, String)| (p.0@, p.1@)) == spec_roster_pairs(
                    stats,
                    i as int,
                ),
            decreases count - i,
        {
            let name: String = match json_entry_str_field_of(stats_text.as_str(), i, "NAME") {
                Some(s) => s,
                None => {
                    proof {
                        assert(!spec_roster_entry_ok(stats, i as u64));
                    }
                    return Err(ReplayError::MetadataParseError);
                },
            };
            let skin: String = match json_entry_str_field_of(stats_text.as_str(), i, "SKIN") {
                Some(s) => s,
                None => {
                    proof {
                        assert(!spec_roster_entry_ok(stats, i as u64));
                    }
                    return Err(ReplayError::MetadataParseError);
                },
            };
            let team_code: String = match json_entry_str_field_of(stats_text.as_str(), i, "TEAM") {
                Some(s) => s,
                None => {
                    proof {
                        assert(!spec_roster_entry_ok(stats, i as u64));
                    }
                    return Err(ReplayError::MetadataParseError);
                },
            };
            let win: String = match json_entry_str_field_of(stats_text.as_str(), i, "WIN") {
                Some(s) => s,
                None => {
                    proof {
                        assert(!spec_roster_entry_ok(stats, i as u64));
                    }
                    return Err(ReplayError::MetadataParseError);
                },
            };
            let team: String = match team_name_of_code(team_code.as_str()) {
                Ok(t) => t,
                Err(e) => {
                    proof {
                        assert(!spec_roster_entry_ok(stats, i as u64));
                    }
                    return Err(e);
                },
            };
            let position: String = role_of_index(i);
            players.push(Player { name, skin, team, position });
            let ghost pairs0 = pairs@.map_values(|p: (String, String)| (p.0@, p.1@));
            pairs.push((team_code, win));
            proof {
                let mp = pairs@.map_values(|p: (String, String)| (p.0@, p.1@));
                assert(mp.len() == i + 1);
                assert forall|j: int|
                    0 <= j < i + 1 implies mp[j] == spec_roster_pairs(stats, i as int + 1)[j] by {
                    if j < i {
                        assert(mp[j] == pairs0[j]);
                        assert(pairs0[j] == spec_roster_pairs(stats, i as int)[j]);
                    } else {
                        assert(mp[j] == (pairs@[j].0@, pairs@[j].1@));
                    }
                }
                assert(mp =~= spec_roster_pairs(stats, i as int + 1));
            }
            i = i + 1;
        }

        let winner: String = winning_team(&pairs);
        proof {
            assert forall|iu: u64| iu < count64 implies spec_roster_entry_ok(stats, iu) by {
                assert(spec_player_matches(stats, iu as int, players@[iu as int]));
                assert(json_entry_str_field(stats, iu, "WIN"@) is Some);
            }
        }
        Ok(Metadata { version, game_len, winning_team: winner, players })
    }

    /// The rostered player behind a numeric entity id, counting from
    /// `player_id_start`.
    pub fn get_player_from_id(&self, id: u32, player_id_start: u32) -> (r: Option<&Player>)
        ensures
            match r {
                Some(p) => spec_player_from_id(*self, id, player_id_start) == Some(*p),
                None => spec_player_from_id(*self, id, player_id_start) is None,
            },
    {
        if id < player_id_start {
            return None;
        }
        let idx_u32: u32 = id - player_id_start;
        let idx: usize = idx_u32 as usize;
        if idx >= self.players.len() {
            return None;
        }
        Some(&self.players[idx])
    }
}

} // verus!
