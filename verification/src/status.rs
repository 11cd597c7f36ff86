//! The status that a server reports: what the fields of its JSON hold.

use vstd::prelude::*;
use vstd::string::*;
use crate::json::{
    find_key, items_view, json_text_value, lemma_items_view, lemma_members_view, members_view,
    parse_json, str_eq, value_as_i32, value_get, Json, JsonValue, Member,
};

verus! {

/// The model of a [`Player`].
pub struct PlayerValue {
    pub name: Option<Seq<char>>,
    pub id: Option<Seq<char>>,
}

/// The model of a [`Players`].
pub struct PlayersValue {
    pub max: Option<i32>,
    pub online: Option<i32>,
    pub sample: Option<Seq<PlayerValue>>,
}

/// The model of a [`Version`].
pub struct VersionValue {
    pub name: Option<Seq<char>>,
    pub protocol: Option<i32>,
}

/// The text of a string that may be missing.
pub open spec fn text_of(s: Option<String>) -> Option<Seq<char>> {
    match s {
        Some(t) => Some(t@),
        None => None,
    }
}

/// One player of the sample.
#[derive(Debug, Clone, PartialEq, Eq)]
pub struct Player {
    pub name: Option<String>,
    pub id: Option<String>,
}

/// The players that a server reports.
#[derive(Debug, Clone, PartialEq, Eq)]
pub struct Players {
    pub max: Option<i32>,
    pub online: Option<i32>,
    pub sample: Option<Vec<Player>>,
}

/// The version that a server reports.
#[derive(Debug, Clone, PartialEq, Eq)]
pub struct Version {
    pub name: Option<String>,
    pub protocol: Option<i32>,
}

/// What a player did on a server.
#[derive(Debug, Clone, Copy, PartialEq, Eq, Hash, Structural)]
pub enum ActionType {
    Joined,
    Left,
}

impl View for Player {
    type V = PlayerValue;

    open spec fn view(&self) -> PlayerValue {
        PlayerValue { name: text_of(self.name), id: text_of(self.id) }
    }
}

impl View for Players {
    type V = PlayersValue;

    open spec fn view(&self) -> PlayersValue {
        PlayersValue {
            max: self.max,
            online: self.online,
            sample: match self.sample {
                Some(players) => Some(players@.map_values(|p: Player| p@)),
                None => None,
            },
        }
    }
}

impl View for Version {
    type V = VersionValue;

    open spec fn view(&self) -> VersionValue {
        VersionValue { name: text_of(self.name), protocol: self.protocol }
    }
}

impl Default for Player {
    fn default() -> (r: Player)
        ensures
            r@ == (PlayerValue { name: None, id: None }),
    {
        Player { name: None, id: None }
    }
}

impl Default for Players {
    fn default() -> (r: Players)
        ensures
            r@ == (PlayersValue { max: None, online: None, sample: None }),
    {
        Players { max: None, online: None, sample: None }
    }
}

impl Default for Version {
    fn default() -> (r: Version)
        ensures
            r@ == (VersionValue { name: None, protocol: None }),
    {
        Version { name: None, protocol: None }
    }
}

/// The text of the member `key`, where there is one and it is a string.
pub open spec fn text_field(v: JsonValue, key: Seq<char>) -> Option<Seq<char>> {
    match value_get(v, key) {
        Some(JsonValue::Text(t)) => Some(t),
        _ => None,
    }
}

/// The number of the member `key`, where there is one and it is a whole
/// number in the range of `i32`.
pub open spec fn int_field(v: JsonValue, key: Seq<char>) -> Option<i32> {
    match value_get(v, key) {
        Some(x) => value_as_i32(x),
        None => None,
    }
}

/// The truth value of the member `key`, where there is one and it is a
/// boolean.
pub open spec fn bool_field(v: JsonValue, key: Seq<char>) -> Option<bool> {
    match value_get(v, key) {
        Some(JsonValue::Bool(b)) => Some(b),
        _ => None,
    }
}

/// The player that a value describes: a field that is missing or is no
/// string is null.
pub open spec fn player_of(v: JsonValue) -> PlayerValue {
    PlayerValue { name: text_field(v, "name"@), id: text_field(v, "id"@) }
}

/// The players that a value describes: a field that is missing or has
/// another type than expected is null.
pub open spec fn players_of(v: JsonValue) -> PlayersValue {
    PlayersValue {
        max: int_field(v, "max"@),
        online: int_field(v, "online"@),
        sample: match value_get(v, "sample"@) {
            Some(JsonValue::Array(items)) => Some(items.map_values(|x: JsonValue| player_of(x))),
            _ => None,
        },
    }
}

/// The version that a value describes: a field that is missing or has
/// another type than expected is null.
pub open spec fn version_of(v: JsonValue) -> VersionValue {
    VersionValue { name: text_field(v, "name"@), protocol: int_field(v, "protocol"@) }
}

fn read_text_field(value: &Json, key: &str) -> (r: Option<String>)
    ensures
        text_of(r) == text_field(value@, key@),
{
    match value.get(key) {
        Some(v) => match v.as_str() {
            Some(s) => Some(s.to_owned()),
            None => None,
        },
        None => None,
    }
}

fn read_int_field(value: &Json, key: &str) -> (r: Option<i32>)
    ensures
        r == int_field(value@, key@),
{
    match value.get(key) {
        Some(v) => v.as_i32(),
        None => None,
    }
}

fn read_bool_field(value: &Json, key: &str) -> (r: Option<bool>)
    ensures
        r == bool_field(value@, key@),
{
    match value.get(key) {
        Some(v) => v.as_bool(),
        None => None,
    }
}

/// Reads one player of the sample.
pub fn parse_player(value: &Json) -> (r: Player)
    ensures
        r@ == player_of(value@),
{
    Player { name: read_text_field(value, "name"), id: read_text_field(value, "id") }
}

/// Reads the `players` field of a status.
pub fn parse_players(value: &Json) -> (r: Players)
    ensures
        r@ == players_of(value@),
{
    let max = read_int_field(value, "max");
    let online = read_int_field(value, "online");
    let sample = match value.get("sample") {
        Some(v) => match v.as_array() {
            Some(items) => {
                let mut players: Vec<Player> = Vec::new();
                let mut i: usize = 0;
                proof {
                    lemma_items_view(items@);
                }
                while i < items.len()
                    invariant
                        i <= items@.len(),
                        players@.len() == i,
                        items_view(items@).len() == items@.len(),
                        forall|j: int|
                            0 <= j < items@.len() ==> #[trigger] items_view(items@)[j]
                                == items@[j]@,
                        forall|j: int| 0 <= j < i ==> (#[trigger] players@[j])@ == player_of(
                            items@[j]@,
                        ),
                    decreases items.len() - i,
                {
                    players.push(parse_player(&items[i]));
                    i += 1;
                }
                proof {
                    assert(players@.map_values(|p: Player| p@) =~= items_view(items@).map_values(
                        |x: JsonValue| player_of(x),
                    ));
                }
                Some(players)
            },
            None => None,
        },
        None => None,
    };
    Players { max, online, sample }
}

/// Reads the `version` field of a status.
pub fn parse_version(value: &Json) -> (r: Version)
    ensures
        r@ == version_of(value@),
{
    Version { name: read_text_field(value, "name"), protocol: read_int_field(value, "protocol") }
}

/// The text of a description tree: where the value is an object whose
/// `text` is a string, that string and then the text of each item of its
/// `extra`, if that is an array; where the value is an array, the text of
/// each item; else nothing.
pub open spec fn extract_text(v: JsonValue) -> Seq<char>
    decreases v,
{
    match v {
        JsonValue::Object(members) => {
            let t = find_key(members, "text"@) as int;
            let e = find_key(members, "extra"@) as int;
            if t < members.len() && members[t].1 is Text {
                members[t].1->Text_0 + (if e < members.len() && members[e].1 is Array {
                    extract_all(members[e].1->Array_0)
                } else {
                    Seq::empty()
                })
            } else {
                Seq::empty()
            }
        },
        JsonValue::Array(items) => extract_all(items),
        _ => Seq::empty(),
    }
}

/// The texts of the items, one behind the other.
pub open spec fn extract_all(items: Seq<JsonValue>) -> Seq<char>
    decreases items,
{
    if items.len() == 0 {
        Seq::empty()
    } else {
        extract_all(items.drop_last()) + extract_text(items.last())
    }
}

/// The text of a description: a string as it is, anything else by
/// [`extract_text`].
pub open spec fn description_text(v: JsonValue) -> Seq<char> {
    match v {
        JsonValue::Text(t) => t,
        _ => extract_text(v),
    }
}

fn render_all(items: &Vec<Json>, out: &mut String, Ghost(parent): Ghost<Json>)
    requires
        decreases_to!(parent => *items),
    ensures
        final(out)@ == old(out)@ + extract_all(items_view(items@)),
    decreases parent, 0nat,
{
    let mut i: usize = 0;
    proof {
        lemma_items_view(items@);
        assert(items@.take(0) =~= Seq::<Json>::empty());
        assert(out@ + Seq::<char>::empty() =~= out@);
    }
    while i < items.len()
        invariant
            i <= items@.len(),
            decreases_to!(parent => *items),
            out@ == old(out)@ + extract_all(items_view(items@.take(i as int))),
        decreases items.len() - i,
    {
        proof {
            vstd::std_specs::vec::axiom_vec_index_decreases(*items, i as int);
        }
        let piece = render_text(&items[i]);
        let ghost before = out@;
        out.append(piece.as_str());
        proof {
            let upto = items@.take(i + 1);
            assert(upto.drop_last() =~= items@.take(i as int));
            assert(upto.last() == items@[i as int]);
            assert(items_view(upto) == items_view(upto.drop_last()).push(upto.last()@));
            assert(items_view(upto).drop_last() =~= items_view(upto.drop_last()));
            assert(out@ =~= old(out)@ + extract_all(items_view(upto)));
        }
        i += 1;
    }
    proof {
        assert(items@.take(items@.len() as int) =~= items@);
    }
}

fn render_text(value: &Json) -> (r: String)
    ensures
        r@ == extract_text(value@),
    decreases *value, 1nat,
{
    match value.get("text") {
        Some(text) => match text.as_str() {
            Some(s) => {
                let mut out = s.to_owned();
                let ghost members = value@->Object_0;
                let ghost t = find_key(members, "text"@) as int;
                let ghost e = find_key(members, "extra"@) as int;
                proof {
                    assert(value@ is Object);
                    assert(members[t].1 == JsonValue::Text(s@));
                }
                match value.get("extra") {
                    Some(extra) => match extra.as_array() {
                        Some(items) => {
                            render_all(items, &mut out, Ghost(*value));
                            proof {
                                assert(members[e].1 == JsonValue::Array(items_view(items@)));
                                assert(out@ == s@ + extract_all(items_view(items@)));
                                assert(0 <= e < members.len());
                                assert(0 <= t < members.len());
                                assert(extract_text(value@) == members[t].1->Text_0 + extract_all(
                                    members[e].1->Array_0,
                                ));
                                assert(out@ =~= extract_text(value@));
                            }
                        },
                        None => {
                            proof {
                                assert(!(members[e].1 is Array));
                                assert(out@ =~= s@ + Seq::<char>::empty());
                                assert(out@ =~= extract_text(value@));
                            }
                        },
                    },
                    None => {
                        proof {
                            assert(e >= members.len());
                            assert(out@ =~= s@ + Seq::<char>::empty());
                            assert(out@ =~= extract_text(value@));
                        }
                    },
                }
                proof {
                    assert(out@ =~= extract_text(value@));
                }
                out
            },
            None => {
                String::new()
            },
        },
        None => match value.as_array() {
            Some(items) => {
                let mut out = String::new();
                render_all(items, &mut out, Ghost(*value));
                proof {
                    assert(out@ =~= extract_text(value@));
                }
                out
            },
            None => String::new(),
        },
    }
}

/// Renders the `description` of a status as plain text.
pub fn parse_description(value: &Json) -> (r: String)
    ensures
        r@ == description_text(value@),
{
    match value.as_str() {
        Some(s) => s.to_owned(),
        None => render_text(value),
    }
}

/// A description that is a plain string renders as that string.
pub proof fn lemma_description_of_string(text: Seq<char>)
    ensures
        description_text(JsonValue::Text(text)) == text,
{
}

/// A description tree made of a `text` and an `extra` renders as the text
/// followed by the renderings of the items of the `extra`, in their order.
pub proof fn lemma_description_of_tree(text: Seq<char>, extra: Seq<JsonValue>)
    ensures
        description_text(
            JsonValue::Object(
                seq![("text"@, JsonValue::Text(text)), ("extra"@, JsonValue::Array(extra))],
            ),
        ) == text + extract_all(extra),
        extra.len() == 0 ==> extract_all(extra) == Seq::<char>::empty(),
        extra.len() > 0 ==> extract_all(extra) == extract_all(extra.drop_last()) + extract_text(
            extra.last(),
        ),
{
    reveal_strlit("text");
    reveal_strlit("extra");
    let members = seq![("text"@, JsonValue::Text(text)), ("extra"@, JsonValue::Array(extra))];
    assert("text"@.len() != "extra"@.len());
    assert(find_key(members, "text"@) == 0);
    assert(members.skip(1)[0] == members[1]);
    assert(find_key(members.skip(1), "extra"@) == 0);
    assert(find_key(members, "extra"@) == 1);
}

/// The name and the id of each player of a sample that has both, in the
/// order of the sample.
pub open spec fn pairs_of(sample: Seq<PlayerValue>) -> Seq<(Seq<char>, Seq<char>)>
    decreases sample.len(),
{
    if sample.len() == 0 {
        Seq::empty()
    } else {
        let front = pairs_of(sample.drop_last());
        match (sample.last().name, sample.last().id) {
            (Some(name), Some(id)) => front.push((name, id)),
            _ => front,
        }
    }
}

/// The players that a report names.
pub open spec fn named_players(players: Option<PlayersValue>) -> Seq<(Seq<char>, Seq<char>)> {
    match players {
        Some(p) => match p.sample {
            Some(sample) => pairs_of(sample),
            None => Seq::empty(),
        },
        None => Seq::empty(),
    }
}

/// The model of a report that may be missing.
pub open spec fn players_view(players: Option<Players>) -> Option<PlayersValue> {
    match players {
        Some(p) => Some(p@),
        None => None,
    }
}

/// The texts of a list of pairs.
pub open spec fn pairs_view(pairs: Seq<(String, String)>) -> Seq<(Seq<char>, Seq<char>)> {
    pairs.map_values(|p: (String, String)| (p.0@, p.1@))
}

/// Lists the players of the sample of a report that have both a name and
/// an id.
pub fn player_pairs(players: &Players) -> (result: Vec<(String, String)>)
    ensures
        pairs_view(result@) == named_players(Some(players@)),
{
    let mut result: Vec<(String, String)> = Vec::new();
    if let Some(sample) = &players.sample {
        let ghost models = sample@.map_values(|p: Player| p@);
        let mut i: usize = 0;
        proof {
            assert(models.take(0) =~= Seq::<PlayerValue>::empty());
            assert(pairs_view(result@) =~= pairs_of(models.take(0)));
        }
        while i < sample.len()
            invariant
                i <= sample@.len(),
                models == sample@.map_values(|p: Player| p@),
                pairs_view(result@) == pairs_of(models.take(i as int)),
            decreases sample.len() - i,
        {
            let ghost before = result@;
            proof {
                let upto = models.take(i + 1);
                assert(upto.drop_last() =~= models.take(i as int));
                assert(upto.last() == sample@[i as int]@);
            }
            match (&sample[i].name, &sample[i].id) {
                (Some(name), Some(id)) => {
                    result.push((name.clone(), id.clone()));
                    proof {
                        assert(pairs_view(result@) =~= pairs_view(before).push((name@, id@)));
                    }
                },
                _ => {},
            }
            i += 1;
        }
        proof {
            assert(models.take(sample@.len() as int) =~= models);
        }
    } else {
        assert(pairs_view(result@) =~= Seq::empty());
    }
    result
}

/// Lists the players of the sample that have both a name and an id, of a
/// report that may be missing.
pub fn sample_pairs(players: &Option<Players>) -> (result: Vec<(String, String)>)
    ensures
        pairs_view(result@) == named_players(players_view(*players)),
{
    match players {
        Some(p) => player_pairs(p),
        None => {
            let result: Vec<(String, String)> = Vec::new();
            assert(pairs_view(result@) =~= Seq::empty());
            result
        },
    }
}

/// Lists the players of the sample that have both a name and an id.
pub fn extract_players(players: Option<Players>) -> (result: Vec<(String, String)>)
    ensures
        pairs_view(result@) == named_players(players_view(players)),
{
    sample_pairs(&players)
}

/// The six bytes of an escaped NUL as it stands in a JSON text: `\u0000`.
pub open spec fn escaped_nul() -> Seq<u8> {
    seq![0x5Cu8, 0x75, 0x30, 0x30, 0x30, 0x30]
}

/// Whether an escaped NUL stands at the front of the text.
pub open spec fn starts_with_escaped_nul(text: Seq<u8>) -> bool {
    text.len() >= 6 && text.take(6) == escaped_nul()
}

/// The text without its escaped NULs, read from left to right, and without
/// its NUL bytes.
pub open spec fn stripped(text: Seq<u8>) -> Seq<u8>
    decreases text.len(),
{
    if text.len() == 0 {
        Seq::empty()
    } else if starts_with_escaped_nul(text) {
        stripped(text.skip(6))
    } else if text[0] == 0 {
        stripped(text.skip(1))
    } else {
        seq![text[0]] + stripped(text.skip(1))
    }
}

/// Removes the escaped NULs and the NUL bytes from a JSON text.
pub fn strip_nul(text: &[u8]) -> (r: Vec<u8>)
    ensures
        r@ == stripped(text@),
{
    let mut out: Vec<u8> = Vec::new();
    let mut i: usize = 0;
    assert(text@.skip(0) =~= text@);
    assert(out@ + stripped(text@) =~= stripped(text@));
    while i < text.len()
        invariant
            i <= text@.len(),
            out@ + stripped(text@.skip(i as int)) == stripped(text@),
        decreases text.len() - i,
    {
        let ghost rest = text@.skip(i as int);
        let ghost before = out@;
        if text.len() - i >= 6 && text[i] == 0x5C && text[i + 1] == 0x75 && text[i + 2] == 0x30
            && text[i + 3] == 0x30 && text[i + 4] == 0x30 && text[i + 5] == 0x30 {
            proof {
                assert(rest.take(6) =~= escaped_nul());
                assert(rest.skip(6) =~= text@.skip(i + 6));
            }
            i += 6;
        } else {
            proof {
                if rest.len() >= 6 && rest.take(6) == escaped_nul() {
                    assert(rest.take(6)[0] == rest[0]);
                    assert(rest.take(6)[1] == rest[1]);
                    assert(rest.take(6)[2] == rest[2]);
                    assert(rest.take(6)[3] == rest[3]);
                    assert(rest.take(6)[4] == rest[4]);
                    assert(rest.take(6)[5] == rest[5]);
                }
                assert(!starts_with_escaped_nul(rest));
                assert(rest.skip(1) =~= text@.skip(i + 1));
            }
            if text[i] != 0 {
                out.push(text[i]);
                proof {
                    assert(out@ + stripped(rest.skip(1)) =~= before + stripped(rest));
                }
            }
            i += 1;
        }
    }
    proof {
        assert(out@ + Seq::<u8>::empty() =~= out@);
    }
    out
}

/// Whether a key names one of the fields that are taken out of a status.
pub open spec fn is_status_key(key: Seq<char>) -> bool {
    key == "description"@ || key == "enforcesSecureChat"@ || key == "favicon"@ || key
        == "players"@ || key == "version"@
}

/// The members that are left when the fields of a status are taken out.
pub open spec fn remaining(members: Seq<(Seq<char>, JsonValue)>) -> Seq<(Seq<char>, JsonValue)>
    decreases members.len(),
{
    if members.len() == 0 {
        Seq::empty()
    } else {
        let front = remaining(members.drop_last());
        if is_status_key(members.last().0) {
            front
        } else {
            front.push(members.last())
        }
    }
}

/// The model of a [`ParsedServerJson`].
pub struct ParsedValue {
    pub parsed_description: Option<Seq<char>>,
    pub raw_description: Option<JsonValue>,
    pub enforces_secure_chat: Option<bool>,
    pub favicon: Option<Seq<char>>,
    pub players: Option<PlayersValue>,
    pub version: Option<VersionValue>,
    pub extra: JsonValue,
}

/// What a status says, field by field.
#[derive(Debug, PartialEq, Eq)]
pub struct ParsedServerJson {
    /// The description as plain text.
    pub parsed_description: Option<String>,
    /// The description as it was reported.
    pub raw_description: Option<Json>,
    pub enforces_secure_chat: Option<bool>,
    pub favicon: Option<String>,
    pub players: Option<Players>,
    pub version: Option<Version>,
    /// The status without the fields above.
    pub extra: Json,
}

impl View for ParsedServerJson {
    type V = ParsedValue;

    open spec fn view(&self) -> ParsedValue {
        ParsedValue {
            parsed_description: text_of(self.parsed_description),
            raw_description: match self.raw_description {
                Some(j) => Some(j@),
                None => None,
            },
            enforces_secure_chat: self.enforces_secure_chat,
            favicon: text_of(self.favicon),
            players: players_view(self.players),
            version: match self.version {
                Some(v) => Some(v@),
                None => None,
            },
            extra: self.extra@,
        }
    }
}

/// The fields of a status. A field that is missing is null; a `favicon` that
/// is no string and an `enforcesSecureChat` that is no boolean are null too.
/// Of a value that is no object, every field is null and the value itself
/// is what is left.
pub open spec fn server_fields(v: JsonValue) -> ParsedValue {
    ParsedValue {
        parsed_description: match value_get(v, "description"@) {
            Some(d) => Some(description_text(d)),
            None => None,
        },
        raw_description: value_get(v, "description"@),
        enforces_secure_chat: bool_field(v, "enforcesSecureChat"@),
        favicon: text_field(v, "favicon"@),
        players: match value_get(v, "players"@) {
            Some(p) => Some(players_of(p)),
            None => None,
        },
        version: match value_get(v, "version"@) {
            Some(p) => Some(version_of(p)),
            None => None,
        },
        extra: match v {
            JsonValue::Object(members) => JsonValue::Object(remaining(members)),
            _ => v,
        },
    }
}

fn status_key(key: &str) -> (r: bool)
    ensures
        r == is_status_key(key@),
{
    str_eq(key, "description") || str_eq(key, "enforcesSecureChat") || str_eq(key, "favicon")
        || str_eq(key, "players") || str_eq(key, "version")
}

fn without_status_fields(json: &Json) -> (r: Json)
    ensures
        r@ == server_fields(json@).extra,
{
    match json {
        Json::Object(members) => {
            let mut kept: Vec<Member> = Vec::new();
            let mut i: usize = 0;
            proof {
                assert(members@.take(0) =~= Seq::<Member>::empty());
            }
            while i < members.len()
                invariant
                    i <= members@.len(),
                    members_view(kept@) == remaining(members_view(members@.take(i as int))),
                decreases members.len() - i,
            {
                proof {
                    let upto = members@.take(i + 1);
                    assert(upto.drop_last() =~= members@.take(i as int));
                    assert(upto.last() == members@[i as int]);
                    lemma_members_view(upto);
                    lemma_members_view(upto.drop_last());
                    assert(members_view(upto).drop_last() =~= members_view(upto.drop_last()));
                }
                if !status_key(members[i].key.as_str()) {
                    let ghost before = kept@;
                    let member = Member {
                        key: members[i].key.clone(),
                        value: members[i].value.clone(),
                    };
                    kept.push(member);
                    proof {
                        assert(kept@.drop_last() =~= before);
                    }
                }
                i += 1;
            }
            proof {
                assert(members@.take(members@.len() as int) =~= members@);
            }
            Json::Object(kept)
        },
        _ => json.clone(),
    }
}

/// Takes the fields of a status out of its JSON value.
pub fn extract_server_fields(json: &Json) -> (r: ParsedServerJson)
    ensures
        r@ == server_fields(json@),
{
    let raw_description = match json.get("description") {
        Some(d) => Some(d.clone()),
        None => None,
    };
    let parsed_description = match json.get("description") {
        Some(d) => Some(parse_description(d)),
        None => None,
    };
    let enforces_secure_chat = read_bool_field(json, "enforcesSecureChat");
    let favicon = read_text_field(json, "favicon");
    let players = match json.get("players") {
        Some(p) => Some(parse_players(p)),
        None => None,
    };
    let version = match json.get("version") {
        Some(v) => Some(parse_version(v)),
        None => None,
    };
    let extra = without_status_fields(json);
    ParsedServerJson {
        parsed_description,
        raw_description,
        enforces_secure_chat,
        favicon,
        players,
        version,
        extra,
    }
}

/// Why a status was not taken in.
#[derive(Debug, Clone, Copy, PartialEq, Eq, Structural)]
pub enum StatusError {
    /// The text of the status is not JSON.
    InvalidStatusJson,
}

/// Cleans and parses the text of a status and takes its fields out.
pub fn parse_server_json(json_str: &str) -> (r: Result<ParsedServerJson, StatusError>)
    ensures
        r is Ok <==> json_text_value(stripped(json_str.spec_bytes())) is Some,
        r is Ok ==> r->Ok_0@ == server_fields(
            json_text_value(stripped(json_str.spec_bytes()))->Some_0,
        ),
{
    let cleaned = strip_nul(json_str.as_bytes());
    match parse_json(cleaned.as_slice()) {
        Some(json) => Ok(extract_server_fields(&json)),
        None => Err(StatusError::InvalidStatusJson),
    }
}

} // verus!
