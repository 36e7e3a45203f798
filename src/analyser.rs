use vstd::prelude::*;

use crate::entity::{EntityId, PacketEntity, PropValue, SendProp};
use crate::message::{GameEvent, Message, MessageType, PlayerSpawnEvent, UserMessage};
use crate::records::{
    class_code, class_of, insert_position, lemma_player_position,
    lemma_insert_keeps_order, lemma_update_keeps_order, users_ordered, name_holder, player_position, players_view, records_chat, records_death,
    team_of, user_position, with_player, ChatMessage, Class, ClassList, Death, MatchState, Pause,
    Player, PlayerView, Round, Spawn, UserId, UserInfo,
};
use crate::sendprop::{prop_identifier, FlatProp, PropIdentifier, PropSchema, ServerClass};
use crate::userinfo::{parse_player_info, player_info, bytes_of, PlayerInfoView, ReadError};
use crate::usermessage::{strip_formatting, ChatMessageKind};

verus! {

/// The name behind a property identifier.
#[derive(Debug)]
pub struct PropName {
    pub identifier: PropIdentifier,
    pub table: String,
    pub name: String,
}

pub struct PropNameView {
    pub identifier: u64,
    pub table: Seq<char>,
    pub name: Seq<char>,
}

impl View for PropName {
    type V = PropNameView;

    open spec fn view(&self) -> PropNameView {
        PropNameView { identifier: self.identifier.0, table: self.table@, name: self.name@ }
    }
}

pub open spec fn names_view(names: Seq<PropName>) -> Seq<PropNameView> {
    names.map_values(|n: PropName| n@)
}

/// The value of a run of decimal digits.
pub open spec fn digits_value(s: Seq<char>) -> nat
    decreases s.len(),
{
    if s.len() == 0 {
        0
    } else {
        digits_value(s.drop_last()) * 10 + ((s.last() as u32) - 48) as nat
    }
}

pub open spec fn is_digit(c: char) -> bool {
    48 <= (c as u32) && (c as u32) <= 57
}

/// `s` without a leading `+`.
pub open spec fn unsigned_part(s: Seq<char>) -> Seq<char> {
    if s.len() > 0 && s[0] == '+' {
        s.drop_first()
    } else {
        s
    }
}

pub open spec fn all_digits(d: Seq<char>) -> bool {
    forall|i: int| 0 <= i < d.len() ==> is_digit(#[trigger] d[i])
}

/// A decimal number that fits in 32 bits, with an optional leading `+`.
pub open spec fn decimal_u32(s: Seq<char>) -> Option<u32> {
    let d = unsigned_part(s);
    if d.len() > 0 && all_digits(d) && digits_value(d) <= u32::MAX {
        Some(digits_value(d) as u32)
    } else {
        None
    }
}

/// Reads a decimal number that fits in 32 bits, with an optional leading `+`.
pub fn parse_u32(s: &str) -> (r: Option<u32>)
    ensures
        r == decimal_u32(s@),
{
    let n = s.unicode_len();
    let mut start: usize = 0;
    if n > 0 && s.get_char(0) == '+' {
        start = 1;
    }
    let ghost d = unsigned_part(s@);
    assert(d =~= s@.subrange(start as int, n as int));
    if start >= n {
        assert(d.len() == 0);
        return None;
    }
    let cap: u64 = 0x1_0000_0000;
    let mut acc: u64 = 0;
    let mut i: usize = start;
    while i < n
        invariant
            start <= i <= n,
            n == s@.len(),
            d == s@.subrange(start as int, n as int),
            forall|j: int| 0 <= j < i - start ==> is_digit(#[trigger] d[j]),
            cap == 0x1_0000_0000u64,
            d == unsigned_part(s@),
            acc <= cap,
            acc as nat == if digits_value(d.take(i - start)) < cap as nat {
                digits_value(d.take(i - start))
            } else {
                cap as nat
            },
        decreases n - i,
    {
        let c = s.get_char(i);
        assert(d[i - start] == c);
        let cv = c as u32;
        if !(48 <= cv && cv <= 57) {
            assert(!is_digit(d[i - start]));
            assert(!all_digits(d));
            return None;
        }
        assert(d.take(i + 1 - start).drop_last() =~= d.take(i - start));
        assert(d.take(i + 1 - start).last() == c);
        let digit = (cv - 48) as u64;
        let next = acc * 10 + digit;
        acc = if next < cap {
            next
        } else {
            cap
        };
        i = i + 1;
    }
    assert(d.take(n - start) =~= d);
    assert(all_digits(d));
    if acc < cap {
        Some(acc as u32)
    } else {
        assert(digits_value(d) >= cap);
        None
    }
}

/// The integer a value holds; anything but an integer reads as 0.
pub open spec fn int_value(v: PropValue) -> i64 {
    match v {
        PropValue::Integer(x) => x,
        _ => 0,
    }
}

/// The float bits a value holds; anything but a float reads as 0.0.
pub open spec fn float_bits(v: PropValue) -> u32 {
    match v {
        PropValue::Float(x) => x,
        _ => 0,
    }
}

fn int_of(v: &PropValue) -> (r: i64)
    ensures
        r == int_value(*v),
{
    match v {
        PropValue::Integer(x) => *x,
        _ => 0,
    }
}

fn float_of(v: &PropValue) -> (r: u32)
    ensures
        r == float_bits(*v),
{
    match v {
        PropValue::Float(x) => *x,
        _ => 0,
    }
}

/// The position of the first name of identifier `id`, searching from `i`.
pub open spec fn name_position(names: Seq<PropNameView>, id: u64, i: int) -> Option<int>
    decreases names.len() - i,
{
    if i < 0 || i >= names.len() {
        None
    } else if names[i].identifier == id {
        Some(i)
    } else {
        name_position(names, id, i + 1)
    }
}

/// The class name of a server class id, empty when the id is unknown.
pub open spec fn class_name_at(class_names: Seq<String>, class: u16) -> Seq<char> {
    if (class as int) < class_names.len() {
        class_names[class as int]@
    } else {
        Seq::empty()
    }
}

/// A property of the player resource entity: a property `NNN` of table
/// `m_iPlayerClass` sets the class of the player record of entity `NNN`.
pub open spec fn apply_resource_prop(
    players: Seq<PlayerView>,
    names: Seq<PropNameView>,
    prop: SendProp,
) -> Seq<PlayerView> {
    match name_position(names, prop.identifier.0, 0) {
        None => players,
        Some(j) => match decimal_u32(names[j].name) {
            None => players,
            Some(pid) => match player_position(players, crate::entity::EntityId(pid), 0) {
                None => players,
                Some(k) => if names[j].table == "m_iPlayerClass"@ {
                    players.update(
                        k,
                        PlayerView { class: class_of(int_value(prop.value) as int), ..players[k] },
                    )
                } else {
                    players
                },
            },
        },
    }
}

pub open spec fn apply_resource_props(
    players: Seq<PlayerView>,
    names: Seq<PropNameView>,
    props: Seq<SendProp>,
) -> Seq<PlayerView>
    decreases props.len(),
{
    if props.len() == 0 {
        players
    } else {
        apply_resource_prop(apply_resource_props(players, names, props.drop_last()), names, props.last())
    }
}

/// `(tick, angle)` for each property of `props` whose identifier is `a` or `b`.
pub open spec fn angle_samples(props: Seq<SendProp>, a: u64, b: u64, tick: u32) -> Seq<(u32, u32)>
    decreases props.len(),
{
    if props.len() == 0 {
        seq![]
    } else {
        let front = angle_samples(props.drop_last(), a, b, tick);
        let p = props.last();
        if p.identifier.0 == a || p.identifier.0 == b {
            front.push((tick, float_bits(p.value)))
        } else {
            front
        }
    }
}

pub open spec fn local_eye() -> u64 {
    prop_identifier("DT_TFLocalPlayerExclusive"@, "m_angEyeAngles[1]"@)
}

pub open spec fn non_local_eye() -> u64 {
    prop_identifier("DT_TFNonLocalPlayerExclusive"@, "m_angEyeAngles[1]"@)
}

pub open spec fn local_pitch() -> u64 {
    prop_identifier("DT_TFLocalPlayerExclusive"@, "m_angEyeAngles[0]"@)
}

pub open spec fn non_local_pitch() -> u64 {
    prop_identifier("DT_TFNonLocalPlayerExclusive"@, "m_angEyeAngles[0]"@)
}

/// What one entity update does to the player records.
pub open spec fn entity_effect(
    players: Seq<PlayerView>,
    class_names: Seq<String>,
    names: Seq<PropNameView>,
    entity: PacketEntity,
    tick: u32,
) -> Seq<PlayerView> {
    let class = class_name_at(class_names, entity.server_class);
    if class == "CTFPlayerResource"@ {
        apply_resource_props(players, names, entity.props@)
    } else if class == "CTFPlayer"@ {
        let (ps, k) = with_player(players, entity.entity_index);
        ps.update(
            k,
            PlayerView {
                view_angle: ps[k].view_angle + angle_samples(
                    entity.props@,
                    local_eye(),
                    non_local_eye(),
                    tick,
                ),
                pitch_angle: ps[k].pitch_angle + angle_samples(
                    entity.props@,
                    local_pitch(),
                    non_local_pitch(),
                    tick,
                ),
                ..ps[k]
            },
        )
    } else {
        players
    }
}

/// How many properties of `schema` have identifier `a` or `b`.
pub open spec fn schema_id_count(schema: Seq<FlatProp>, a: u64, b: u64) -> nat
    decreases schema.len(),
{
    if schema.len() == 0 {
        0
    } else {
        schema_id_count(schema.drop_last(), a, b) + if schema.last().identifier.0 == a
            || schema.last().identifier.0 == b {
            1nat
        } else {
            0nat
        }
    }
}

proof fn lemma_angle_samples(
    schema: Seq<FlatProp>,
    props: Seq<SendProp>,
    a: u64,
    b: u64,
    tick: u32,
)
    requires
        props.len() == schema.len(),
        forall|i: int| 0 <= i < props.len() ==> (#[trigger] props[i]).identifier == schema[i].identifier,
    ensures
        angle_samples(props, a, b, tick).len() == schema_id_count(schema, a, b),
        forall|j: int|
            0 <= j < angle_samples(props, a, b, tick).len() ==> (#[trigger] angle_samples(
                props,
                a,
                b,
                tick,
            )[j]).0 == tick,
    decreases props.len(),
{
    if props.len() > 0 {
        lemma_angle_samples(schema.drop_last(), props.drop_last(), a, b, tick);
        assert(props.last().identifier == schema.last().identifier);
    }
}

proof fn lemma_class_names_differ()
    ensures
        "CTFPlayer"@ != "CTFPlayerResource"@,
{
    reveal_strlit("CTFPlayer");
    reveal_strlit("CTFPlayerResource");
    assert("CTFPlayer"@.len() != "CTFPlayerResource"@.len());
}

/// A player entity whose properties are those of its full schema, as an
/// entering entity decodes, gains one view angle sample for each eye-yaw
/// property of the schema and one pitch sample for each eye-pitch property,
/// all at the update's tick, in the record of its entity (made when missing).
pub proof fn lemma_entering_player_angles(
    players: Seq<PlayerView>,
    class_names: Seq<String>,
    names: Seq<PropNameView>,
    entity: PacketEntity,
    schema: Seq<FlatProp>,
    tick: u32,
)
    requires
        class_name_at(class_names, entity.server_class) == "CTFPlayer"@,
        entity.props@.len() == schema.len(),
        forall|i: int|
            0 <= i < schema.len() ==> (#[trigger] entity.props@[i]).identifier == schema[i].identifier,
    ensures
        ({
            let (ps, k) = with_player(players, entity.entity_index);
            let after = entity_effect(players, class_names, names, entity, tick);
            &&& 0 <= k < after.len()
            &&& after[k].entity == entity.entity_index
            &&& after[k].view_angle.len() == ps[k].view_angle.len() + schema_id_count(
                schema,
                local_eye(),
                non_local_eye(),
            )
            &&& after[k].pitch_angle.len() == ps[k].pitch_angle.len() + schema_id_count(
                schema,
                local_pitch(),
                non_local_pitch(),
            )
            &&& forall|j: int|
                ps[k].view_angle.len() <= j < after[k].view_angle.len() ==> (
                #[trigger] after[k].view_angle[j]).0 == tick
            &&& forall|j: int|
                ps[k].pitch_angle.len() <= j < after[k].pitch_angle.len() ==> (
                #[trigger] after[k].pitch_angle[j]).0 == tick
        }),
{
    lemma_class_names_differ();
    lemma_player_position(players, entity.entity_index, 0);
    let (ps, k) = with_player(players, entity.entity_index);
    let v = angle_samples(entity.props@, local_eye(), non_local_eye(), tick);
    let p = angle_samples(entity.props@, local_pitch(), non_local_pitch(), tick);
    assert(entity_effect(players, class_names, names, entity, tick) == ps.update(
        k,
        PlayerView { view_angle: ps[k].view_angle + v, pitch_angle: ps[k].pitch_angle + p, ..ps[k] },
    ));
    lemma_angle_samples(schema, entity.props@, local_eye(), non_local_eye(), tick);
    lemma_angle_samples(schema, entity.props@, local_pitch(), non_local_pitch(), tick);
    let after = entity_effect(players, class_names, names, entity, tick);
    assert forall|j: int| ps[k].view_angle.len() <= j < after[k].view_angle.len() implies (
    #[trigger] after[k].view_angle[j]).0 == tick by {
        assert(after[k].view_angle[j] == v[j - ps[k].view_angle.len()]);
    }
    assert forall|j: int| ps[k].pitch_angle.len() <= j < after[k].pitch_angle.len() implies (
    #[trigger] after[k].pitch_angle[j]).0 == tick by {
        assert(after[k].pitch_angle[j] == p[j - ps[k].pitch_angle.len()]);
    }
}

/// Folds decoded messages into a `MatchState`.
pub struct Analyser {
    pub state: MatchState,
    /// Whether a net tick has been seen, so that the start tick is set.
    pub net_tick_seen: bool,
    pub pause_start: Option<u32>,
    pub class_names: Vec<String>,
    pub prop_names: Vec<PropName>,
}

fn find_name(names: &Vec<PropName>, id: PropIdentifier) -> (r: Option<usize>)
    ensures
        match r {
            Some(j) => j < names@.len() && name_position(names_view(names@), id.0, 0) == Some(
                j as int,
            ),
            None => name_position(names_view(names@), id.0, 0) is None,
        },
{
    let ghost nv = names_view(names@);
    let mut i: usize = 0;
    while i < names.len()
        invariant
            i <= names@.len(),
            nv == names_view(names@),
            name_position(nv, id.0, 0) == name_position(nv, id.0, i as int),
        decreases names@.len() - i,
    {
        assert(nv[i as int] == names@[i as int]@);
        if names[i].identifier == id {
            return Some(i);
        }
        i = i + 1;
    }
    None
}

fn find_player(players: &Vec<Player>, entity: crate::entity::EntityId) -> (r: Option<usize>)
    ensures
        match r {
            Some(k) => k < players@.len() && player_position(players_view(players@), entity, 0)
                == Some(k as int),
            None => player_position(players_view(players@), entity, 0) is None,
        },
{
    let ghost pv = players_view(players@);
    let mut i: usize = 0;
    while i < players.len()
        invariant
            i <= players@.len(),
            pv == players_view(players@),
            player_position(pv, entity, 0) == player_position(pv, entity, i as int),
        decreases players@.len() - i,
    {
        assert(pv[i as int] == players@[i as int]@);
        if players[i].entity == entity {
            return Some(i);
        }
        i = i + 1;
    }
    None
}

impl Analyser {
    fn apply_resource(&mut self, prop: &SendProp, class_table: &String)
        requires
            class_table@ == "m_iPlayerClass"@,
        ensures
            players_view(final(self).state.players@) == apply_resource_prop(
                players_view(old(self).state.players@),
                names_view(old(self).prop_names@),
                *prop,
            ),
            final(self).state == (MatchState { players: final(self).state.players, ..old(self).state }),
            final(self).pause_start == old(self).pause_start,
            final(self).net_tick_seen == old(self).net_tick_seen,
            final(self).class_names == old(self).class_names,
            final(self).prop_names == old(self).prop_names,
    {
        let ghost nv = names_view(self.prop_names@);
        if let Some(j) = find_name(&self.prop_names, prop.identifier) {
            assert(nv[j as int] == self.prop_names@[j as int]@);
            if let Some(pid) = parse_u32(self.prop_names[j].name.as_str()) {
                if let Some(k) = find_player(&self.state.players, crate::entity::EntityId(pid)) {
                    if self.prop_names[j].table == *class_table {
                        let ghost before = self.state.players@;
                        let class = Class::new(int_of(&prop.value));
                        let mut p = self.state.players.remove(k);
                        p.class = class;
                        self.state.players.insert(k, p);
                        assert(players_view(self.state.players@) =~= players_view(before).update(
                            k as int,
                            p@,
                        ));
                    }
                }
            }
        }
    }

    /// Routes one entity update by class name: the player resource sets the
    /// classes of known players, a player entity adds view and pitch angle
    /// samples at `tick` to its record (made when missing).
    pub fn handle_entity(&mut self, entity: &PacketEntity, tick: u32)
        ensures
            players_view(final(self).state.players@) == entity_effect(
                players_view(old(self).state.players@),
                old(self).class_names@,
                names_view(old(self).prop_names@),
                *entity,
                tick,
            ),
            final(self).state == (MatchState { players: final(self).state.players, ..old(self).state }),
            final(self).pause_start == old(self).pause_start,
            final(self).net_tick_seen == old(self).net_tick_seen,
            final(self).class_names == old(self).class_names,
            final(self).prop_names == old(self).prop_names,
    {
        let resource = "CTFPlayerResource".to_owned();
        let player = "CTFPlayer".to_owned();
        let empty = String::new();
        let idx = entity.server_class as usize;
        let class_name = if idx < self.class_names.len() {
            &self.class_names[idx]
        } else {
            &empty
        };
        assert(class_name@ == class_name_at(self.class_names@, entity.server_class));
        if *class_name == resource {
            let class_table = "m_iPlayerClass".to_owned();
            let mut i: usize = 0;
            while i < entity.props.len()
                invariant
                    class_table@ == "m_iPlayerClass"@,
                    i <= entity.props@.len(),
                    self.class_names == old(self).class_names,
                    self.prop_names == old(self).prop_names,
                    self.pause_start == old(self).pause_start,
                    self.net_tick_seen == old(self).net_tick_seen,
                    self.state == (MatchState { players: self.state.players, ..old(self).state }),
                    players_view(self.state.players@) == apply_resource_props(
                        players_view(old(self).state.players@),
                        names_view(old(self).prop_names@),
                        entity.props@.take(i as int),
                    ),
                decreases entity.props@.len() - i,
            {
                assert(entity.props@.take(i + 1).drop_last() =~= entity.props@.take(i as int));
                self.apply_resource(&entity.props[i], &class_table);
                i = i + 1;
            }
            assert(entity.props@.take(i as int) =~= entity.props@);
        } else if *class_name == player {
            let k = self.state.get_or_create_player(entity.entity_index);
            let ghost ps = players_view(self.state.players@);
            proof {
                lemma_player_position(players_view(old(self).state.players@), entity.entity_index, 0);
            }
            assert(ps[k as int] == self.state.players@[k as int]@);
            let eye_a = PropIdentifier::new("DT_TFLocalPlayerExclusive", "m_angEyeAngles[1]");
            let eye_b = PropIdentifier::new("DT_TFNonLocalPlayerExclusive", "m_angEyeAngles[1]");
            let pitch_a = PropIdentifier::new("DT_TFLocalPlayerExclusive", "m_angEyeAngles[0]");
            let pitch_b = PropIdentifier::new("DT_TFNonLocalPlayerExclusive", "m_angEyeAngles[0]");
            let mut p = self.state.players.remove(k);
            let ghost start = p@;
            assert(start == ps[k as int]);
            let mut i: usize = 0;
            assert(entity.props@.take(0) =~= Seq::<SendProp>::empty());
            assert(start.view_angle + Seq::<(u32, u32)>::empty() =~= start.view_angle);
            assert(start.pitch_angle + Seq::<(u32, u32)>::empty() =~= start.pitch_angle);
            while i < entity.props.len()
                invariant
                    i <= entity.props@.len(),
                    p.entity == start.entity,
                    p.class == start.class,
                    p.view_angle@ == start.view_angle + angle_samples(
                        entity.props@.take(i as int),
                        eye_a.0,
                        eye_b.0,
                        tick,
                    ),
                    p.pitch_angle@ == start.pitch_angle + angle_samples(
                        entity.props@.take(i as int),
                        pitch_a.0,
                        pitch_b.0,
                        tick,
                    ),
                decreases entity.props@.len() - i,
            {
                assert(entity.props@.take(i + 1).drop_last() =~= entity.props@.take(i as int));
                let prop = &entity.props[i];
                if prop.identifier == eye_a || prop.identifier == eye_b {
                    p.view_angle.push((tick, float_of(&prop.value)));
                }
                if prop.identifier == pitch_a || prop.identifier == pitch_b {
                    p.pitch_angle.push((tick, float_of(&prop.value)));
                }
                assert(p.view_angle@ =~= start.view_angle + angle_samples(
                    entity.props@.take(i + 1),
                    eye_a.0,
                    eye_b.0,
                    tick,
                ));
                assert(p.pitch_angle@ =~= start.pitch_angle + angle_samples(
                    entity.props@.take(i + 1),
                    pitch_a.0,
                    pitch_b.0,
                    tick,
                ));
                i = i + 1;
            }
            assert(entity.props@.take(i as int) =~= entity.props@);
            self.state.players.insert(k, p);
            assert(players_view(self.state.players@) =~= ps.update(k as int, p@));
        }
    }
}

/// The win reason of a round that ended on the time limit.
pub const WIN_REASON_TIME_LIMIT: u8 = 6;

/// Whether `after` is `before` with one more spawn of `event`'s class and
/// `event`'s team.
pub open spec fn spawned(before: UserInfo, after: UserInfo, event: PlayerSpawnEvent) -> bool {
    let c = class_code(class_of(event.class as int));
    &&& after == (UserInfo { classes: after.classes, team: after.team, ..before })
    &&& after.classes.0@ == before.classes.0@.update(
        c,
        if before.classes.0[c] < 255 {
            (before.classes.0[c] + 1) as u8
        } else {
            255u8
        },
    )
    &&& after.team == team_of(event.team as int)
}

/// What a game event at `tick` does to the match state. Spawns and hurts of
/// unknown users are dropped; rounds that ended on the time limit are not
/// recorded.
pub open spec fn event_effect(before: MatchState, after: MatchState, event: GameEvent, tick: u32) -> bool {
    match event {
        GameEvent::PlayerDeath(e) => {
            &&& after == (MatchState { deaths: after.deaths, ..before })
            &&& after.deaths@.len() == before.deaths@.len() + 1
            &&& after.deaths@.drop_last() == before.deaths@
            &&& records_death(after.deaths@.last(), e, tick)
        },
        GameEvent::PlayerSpawn(e) => {
            &&& after == (MatchState { users: after.users, ..before })
            &&& match user_position(before.users@, e.user_id, 0) {
                None => after.users@ == before.users@,
                Some(k) => after.users@ == before.users@.update(k, after.users@[k]) && spawned(
                    before.users@[k],
                    after.users@[k],
                    e,
                ),
            }
        },
        GameEvent::TeamPlayRoundWin(e) => if e.win_reason != WIN_REASON_TIME_LIMIT {
            &&& after == (MatchState { rounds: after.rounds, ..before })
            &&& after.rounds@ == before.rounds@.push(
                Round { winner: team_of(e.team as int), length: e.round_time, end_tick: tick },
            )
        } else {
            after == before
        },
        GameEvent::PlayerHurt(e) => {
            &&& after == (MatchState { users: after.users, ..before })
            &&& match user_position(before.users@, e.user_id, 0) {
                None => after.users@ == before.users@,
                Some(k) => after.users@ == before.users@.update(k, after.users@[k])
                    && after.users@[k] == (UserInfo { health: after.users@[k].health, ..before.users@[k] })
                    && after.users@[k].health@ == before.users@[k].health@.push((tick, e.health)),
            }
        },
        GameEvent::Other => after == before,
    }
}

/// Whether `after` is `before` with the first user named `from` renamed to
/// `to`; nothing changes when nobody has that name.
pub open spec fn renamed(before: Seq<UserInfo>, after: Seq<UserInfo>, from: Seq<char>, to: Seq<char>) -> bool {
    match name_holder(before, from, 0) {
        None => after == before,
        Some(k) => after == before.update(k, after[k]) && after[k] == (UserInfo {
            name: after[k].name,
            ..before[k]
        }) && after[k].name@ == to,
    }
}

/// What a user message at `tick` does to the match state: a name change
/// renames a user, any other chat line is logged.
pub open spec fn user_message_effect(before: MatchState, after: MatchState, message: UserMessage, tick: u32) -> bool {
    match message {
        UserMessage::SayText2(m) => if m.kind == ChatMessageKind::NameChange {
            match m.from {
                Some(f) => after == (MatchState { users: after.users, ..before }) && renamed(
                    before.users@,
                    after.users@,
                    f@,
                    strip_formatting(m.text@),
                ),
                None => after == before,
            }
        } else {
            &&& after == (MatchState { chat: after.chat, ..before })
            &&& after.chat@.len() == before.chat@.len() + 1
            &&& after.chat@.drop_last() == before.chat@
            &&& records_chat(after.chat@.last(), m, tick)
        },
        UserMessage::Other => after == before,
    }
}

/// What a run of entity updates at `tick` does to the player records.
pub open spec fn entities_effect(
    players: Seq<PlayerView>,
    class_names: Seq<String>,
    names: Seq<PropNameView>,
    entities: Seq<PacketEntity>,
    tick: u32,
) -> Seq<PlayerView>
    decreases entities.len(),
{
    if entities.len() == 0 {
        players
    } else {
        entity_effect(
            entities_effect(players, class_names, names, entities.drop_last(), tick),
            class_names,
            names,
            entities.last(),
            tick,
        )
    }
}

/// The names of the properties of one table, in declaration order.
pub open spec fn schema_names(t: PropSchema) -> Seq<PropNameView> {
    t.props@.map_values(
        |p: crate::sendprop::PropDefinition|
            PropNameView { identifier: prop_identifier(t.name@, p.name@), table: t.name@, name: p.name@ },
    )
}

/// The names of the properties of the first `n` tables.
pub open spec fn table_names(tables: Seq<PropSchema>, n: int) -> Seq<PropNameView>
    decreases n,
{
    if n <= 0 {
        seq![]
    } else {
        table_names(tables, n - 1) + schema_names(tables[n - 1])
    }
}

/// What a `userinfo` entry does to the user records: a new user gets a fresh
/// record in id order, a known one only a new entity.
pub open spec fn user_info_effect(before: Seq<UserInfo>, after: Seq<UserInfo>, info: PlayerInfoView) -> bool {
    match user_position(before, info.user_id, 0) {
        Some(k) => after == before.update(k, UserInfo { entity_id: info.entity_id, ..before[k] }),
        None => {
            let p = insert_position(before, info.user_id, 0);
            &&& after.len() == before.len() + 1
            &&& after.remove(p) == before
            &&& after[p].name@ == info.name
            &&& after[p].user_id.0 == info.user_id
            &&& after[p].steam_id@ == info.steam_id
            &&& after[p].entity_id == info.entity_id
            &&& after[p].team == crate::records::Team::Other
            &&& after[p].health@.len() == 0
            &&& forall|c: int| 0 <= c < 10 ==> after[p].classes.0[c] == 0
        },
    }
}

fn find_user(users: &Vec<UserInfo>, id: u16) -> (r: Option<usize>)
    ensures
        match r {
            Some(k) => k < users@.len() && user_position(users@, id, 0) == Some(k as int),
            None => user_position(users@, id, 0) is None,
        },
{
    let mut i: usize = 0;
    while i < users.len()
        invariant
            i <= users@.len(),
            user_position(users@, id, 0) == user_position(users@, id, i as int),
        decreases users@.len() - i,
    {
        if users[i].user_id.0 == id {
            return Some(i);
        }
        i = i + 1;
    }
    None
}

impl Analyser {
    /// An analyser that has seen nothing yet.
    pub fn new() -> (r: Analyser)
        ensures
            r.state.chat@.len() == 0,
            r.state.users@.len() == 0,
            r.state.deaths@.len() == 0,
            r.state.rounds@.len() == 0,
            r.state.start_tick == 0,
            r.state.interval_per_tick == 0,
            r.state.pauses@.len() == 0,
            r.state.players@.len() == 0,
            r.pause_start is None,
            !r.net_tick_seen,
            r.class_names@.len() == 0,
            r.prop_names@.len() == 0,
    {
        Analyser {
            state: MatchState::new(),
            net_tick_seen: false,
            pause_start: None,
            class_names: Vec::new(),
            prop_names: Vec::new(),
        }
    }

    /// The message kinds the analyser reads.
    pub fn does_handle(message_type: MessageType) -> (r: bool)
        ensures
            r == (message_type == MessageType::GameEvent || message_type == MessageType::UserMessage
                || message_type == MessageType::ServerInfo || message_type == MessageType::NetTick
                || message_type == MessageType::SetPause || message_type
                == MessageType::PacketEntities),
    {
        match message_type {
            MessageType::GameEvent => true,
            MessageType::UserMessage => true,
            MessageType::ServerInfo => true,
            MessageType::NetTick => true,
            MessageType::SetPause => true,
            MessageType::PacketEntities => true,
            _ => false,
        }
    }

    /// The match state accumulated so far.
    pub fn borrow_output(&self) -> (r: &MatchState)
        ensures
            *r == self.state,
    {
        &self.state
    }

    /// The accumulated match state, at the end of the stream.
    pub fn into_output(self) -> (r: MatchState)
        ensures
            r == self.state,
    {
        self.state
    }

    /// Adds a spawn, a hurt, a kill or a round to the match state.
    pub fn handle_event(&mut self, event: &GameEvent, tick: u32)
        ensures
            *final(self) == (Analyser { state: final(self).state, ..*old(self) }),
            event_effect(old(self).state, final(self).state, *event, tick),
            users_ordered(old(self).state.users@) ==> users_ordered(final(self).state.users@),
    {
        match event {
            GameEvent::PlayerDeath(e) => {
                let ghost before = self.state.deaths@;
                self.state.deaths.push(Death::from_event(e, tick));
                assert(self.state.deaths@.drop_last() =~= before);
            },
            GameEvent::PlayerSpawn(e) => {
                let spawn = Spawn::from_event(e, tick);
                if let Some(k) = find_user(&self.state.users, spawn.user.0) {
                    let ghost before = self.state.users@;
                    let mut user = self.state.users.remove(k);
                    user.classes.add_spawn(spawn.class);
                    user.team = spawn.team;
                    let ghost changed = user;
                    self.state.users.insert(k, user);
                    assert(self.state.users@ =~= before.update(k as int, changed));
                    proof {
                        if users_ordered(before) {
                            lemma_update_keeps_order(before, k as int, changed);
                        }
                    }
                }
            },
            GameEvent::TeamPlayRoundWin(e) => {
                if e.win_reason != WIN_REASON_TIME_LIMIT {
                    self.state.rounds.push(Round::from_event(e, tick));
                }
            },
            GameEvent::PlayerHurt(e) => {
                if let Some(k) = find_user(&self.state.users, e.user_id) {
                    let ghost before = self.state.users@;
                    let mut user = self.state.users.remove(k);
                    user.health.push((tick, e.health));
                    let ghost changed = user;
                    self.state.users.insert(k, user);
                    assert(self.state.users@ =~= before.update(k as int, changed));
                    proof {
                        if users_ordered(before) {
                            lemma_update_keeps_order(before, k as int, changed);
                        }
                    }
                }
            },
            GameEvent::Other => {},
        }
    }

    /// Renames the first user called `from`.
    fn change_name(&mut self, from: &String, to: String)
        ensures
            *final(self) == (Analyser { state: final(self).state, ..*old(self) }),
            final(self).state == (MatchState { users: final(self).state.users, ..old(self).state }),
            renamed(old(self).state.users@, final(self).state.users@, from@, to@),
            users_ordered(old(self).state.users@) ==> users_ordered(final(self).state.users@),
    {
        let mut i: usize = 0;
        while i < self.state.users.len()
            invariant
                i <= self.state.users@.len(),
                self == old(self),
                name_holder(self.state.users@, from@, 0) == name_holder(
                    self.state.users@,
                    from@,
                    i as int,
                ),
            decreases self.state.users@.len() - i,
        {
            if self.state.users[i].name == *from {
                let ghost before = self.state.users@;
                let mut user = self.state.users.remove(i);
                user.name = to;
                let ghost changed = user;
                self.state.users.insert(i, user);
                assert(self.state.users@ =~= before.update(i as int, changed));
                proof {
                    if users_ordered(before) {
                        lemma_update_keeps_order(before, i as int, changed);
                    }
                }
                return;
            }
            i = i + 1;
        }
    }

    /// Logs a chat line, or applies a name change.
    pub fn handle_user_message(&mut self, message: &UserMessage, tick: u32)
        ensures
            *final(self) == (Analyser { state: final(self).state, ..*old(self) }),
            user_message_effect(old(self).state, final(self).state, *message, tick),
            users_ordered(old(self).state.users@) ==> users_ordered(final(self).state.users@),
    {
        match message {
            UserMessage::SayText2(m) => {
                if m.kind == ChatMessageKind::NameChange {
                    if let Some(from) = &m.from {
                        self.change_name(from, m.plain_text());
                    }
                } else {
                    let ghost before = self.state.chat@;
                    self.state.chat.push(ChatMessage::from_message(m, tick));
                    assert(self.state.chat@.drop_last() =~= before);
                }
            },
            UserMessage::Other => {},
        }
    }

    /// Folds one message at `tick` into the match state. The first net tick
    /// sets the start tick and later ones leave it; server info sets the tick interval; a pause
    /// on remembers its tick and a pause off records the interval since then
    /// (from tick 0 when none began); entity updates with a delta are routed
    /// one by one at the delta's tick.
    pub fn handle_message(&mut self, message: &Message, tick: u32)
        ensures
            match *message {
                Message::NetTick(t) => *final(self) == (Analyser {
                    state: MatchState {
                        start_tick: if old(self).net_tick_seen {
                            old(self).state.start_tick
                        } else {
                            t
                        },
                        ..old(self).state
                    },
                    net_tick_seen: true,
                    ..*old(self)
                }),
                Message::ServerInfo(interval) => *final(self) == (Analyser {
                    state: MatchState { interval_per_tick: interval, ..old(self).state },
                    ..*old(self)
                }),
                Message::GameEvent(e) => *final(self) == (Analyser {
                    state: final(self).state,
                    ..*old(self)
                }) && event_effect(old(self).state, final(self).state, e, tick),
                Message::UserMessage(m) => *final(self) == (Analyser {
                    state: final(self).state,
                    ..*old(self)
                }) && user_message_effect(old(self).state, final(self).state, m, tick),
                Message::SetPause(on) => if on {
                    *final(self) == (Analyser { pause_start: Some(tick), ..*old(self) })
                } else {
                    &&& *final(self) == (Analyser { state: final(self).state, ..*old(self) })
                    &&& final(self).state == (MatchState {
                        pauses: final(self).state.pauses,
                        ..old(self).state
                    })
                    &&& final(self).state.pauses@ == old(self).state.pauses@.push(
                        Pause {
                            from: match old(self).pause_start {
                                Some(start) => start,
                                None => 0,
                            },
                            to: tick,
                        },
                    )
                },
                Message::PacketEntities(delta, entities) => match delta {
                    None => *final(self) == *old(self),
                    Some(t) => {
                        &&& *final(self) == (Analyser { state: final(self).state, ..*old(self) })
                        &&& final(self).state == (MatchState {
                            players: final(self).state.players,
                            ..old(self).state
                        })
                        &&& players_view(final(self).state.players@) == entities_effect(
                            players_view(old(self).state.players@),
                            old(self).class_names@,
                            names_view(old(self).prop_names@),
                            entities@,
                            t,
                        )
                    },
                },
                Message::Other => *final(self) == *old(self),
            },
            users_ordered(old(self).state.users@) ==> users_ordered(final(self).state.users@),
    {
        match message {
            Message::NetTick(t) => {
                if !self.net_tick_seen {
                    self.state.start_tick = *t;
                    self.net_tick_seen = true;
                }
            },
            Message::ServerInfo(interval) => {
                self.state.interval_per_tick = *interval;
            },
            Message::GameEvent(e) => self.handle_event(e, tick),
            Message::UserMessage(m) => self.handle_user_message(m, tick),
            Message::SetPause(on) => {
                if *on {
                    self.pause_start = Some(tick);
                } else {
                    let start = match self.pause_start {
                        Some(start) => start,
                        None => 0,
                    };
                    self.state.pauses.push(Pause { from: start, to: tick });
                }
            },
            Message::PacketEntities(delta, entities) => {
                if let Some(t) = delta {
                    let mut i: usize = 0;
                    assert(entities@.take(0) =~= Seq::<PacketEntity>::empty());
                    while i < entities.len()
                        invariant
                            i <= entities@.len(),
                            self.class_names == old(self).class_names,
                            self.prop_names == old(self).prop_names,
                            self.pause_start == old(self).pause_start,
                            self.net_tick_seen == old(self).net_tick_seen,
                    self.net_tick_seen == old(self).net_tick_seen,
                            self.state == (MatchState {
                                players: self.state.players,
                                ..old(self).state
                            }),
                            players_view(self.state.players@) == entities_effect(
                                players_view(old(self).state.players@),
                                old(self).class_names@,
                                names_view(old(self).prop_names@),
                                entities@.take(i as int),
                                *t,
                            ),
                        decreases entities@.len() - i,
                    {
                        assert(entities@.take(i + 1).drop_last() =~= entities@.take(i as int));
                        self.handle_entity(&entities[i], *t);
                        i = i + 1;
                    }
                    assert(entities@.take(i as int) =~= entities@);
                }
            },
            Message::Other => {},
        }
    }

    /// Records the class names and the names of all properties, once the
    /// send tables of the capture are known.
    pub fn handle_data_tables(&mut self, tables: &Vec<PropSchema>, server_classes: &Vec<ServerClass>)
        ensures
            final(self).state == old(self).state,
            final(self).pause_start == old(self).pause_start,
            final(self).net_tick_seen == old(self).net_tick_seen,
            final(self).class_names@.len() == server_classes@.len(),
            forall|i: int|
                0 <= i < server_classes@.len() ==> (#[trigger] final(self).class_names@[i])@
                    == server_classes@[i].name@,
            names_view(final(self).prop_names@) == table_names(tables@, tables@.len() as int),
    {
        let mut class_names: Vec<String> = Vec::new();
        let mut i: usize = 0;
        while i < server_classes.len()
            invariant
                i <= server_classes@.len(),
                class_names@.len() == i,
                forall|j: int| 0 <= j < i ==> (#[trigger] class_names@[j])@ == server_classes@[j].name@,
            decreases server_classes@.len() - i,
        {
            class_names.push(server_classes[i].name.clone());
            i = i + 1;
        }
        let mut names: Vec<PropName> = Vec::new();
        let mut t: usize = 0;
        assert(names_view(names@) =~= Seq::<PropNameView>::empty());
        while t < tables.len()
            invariant
                t <= tables@.len(),
                names_view(names@) == table_names(tables@, t as int),
            decreases tables@.len() - t,
        {
            let table = &tables[t];
            let ghost base = names_view(names@);
            let mut j: usize = 0;
            assert(base + schema_names(*table).take(0) =~= base);
            while j < table.props.len()
                invariant
                    table == tables@[t as int],
                    j <= table.props@.len(),
                    names_view(names@) == base + schema_names(*table).take(j as int),
                decreases table.props@.len() - j,
            {
                let p = &table.props[j];
                let ghost before = names_view(names@);
                names.push(
                    PropName {
                        identifier: PropIdentifier::new(table.name.as_str(), p.name.as_str()),
                        table: table.name.clone(),
                        name: p.name.clone(),
                    },
                );
                assert(names_view(names@) =~= before.push(schema_names(*table)[j as int]));
                assert(schema_names(*table).take(j + 1) =~= schema_names(*table).take(j as int).push(
                    schema_names(*table)[j as int],
                ));
                assert(names_view(names@) =~= base + schema_names(*table).take(j + 1));
                j = j + 1;
            }
            assert(schema_names(*table).take(j as int) =~= schema_names(*table));
            t = t + 1;
        }
        self.class_names = class_names;
        self.prop_names = names;
    }

    /// Reads a `userinfo` entry into the user records; entries of other
    /// tables are ignored.
    pub fn handle_string_entry(&mut self, table: &str, index: usize, data: Option<&Vec<u8>>)
        ensures
            table@ != "userinfo"@ ==> *final(self) == *old(self),
            table@ == "userinfo"@ ==> match player_info(index as u16, bytes_of(data)) {
                Ok(Some(info)) => *final(self) == (Analyser { state: final(self).state, ..*old(self) })
                    && final(self).state == (MatchState {
                    users: final(self).state.users,
                    ..old(self).state
                }) && user_info_effect(old(self).state.users@, final(self).state.users@, info),
                _ => *final(self) == *old(self),
            },
            users_ordered(old(self).state.users@) ==> users_ordered(final(self).state.users@),
    {
        if table.to_owned() == "userinfo".to_owned() {
            let _ = self.parse_user_info(index, data);
        }
    }

    /// Reads a `userinfo` entry at `index` into the user records.
    pub fn parse_user_info(&mut self, index: usize, data: Option<&Vec<u8>>) -> (r: Result<(), ReadError>)
        ensures
            match player_info(index as u16, bytes_of(data)) {
                Ok(Some(info)) => r is Ok && *final(self) == (Analyser {
                    state: final(self).state,
                    ..*old(self)
                }) && final(self).state == (MatchState {
                    users: final(self).state.users,
                    ..old(self).state
                }) && user_info_effect(old(self).state.users@, final(self).state.users@, info),
                Ok(None) => r is Ok && *final(self) == *old(self),
                Err(e) => r == Err::<(), ReadError>(e) && *final(self) == *old(self),
            },
            users_ordered(old(self).state.users@) ==> users_ordered(final(self).state.users@),
    {
        match parse_player_info(index as u16, data) {
            Err(e) => Err(e),
            Ok(None) => Ok(()),
            Ok(Some(info)) => {
                let ghost before = self.state.users@;
                match find_user(&self.state.users, info.user_id) {
                    Some(k) => {
                        let mut user = self.state.users.remove(k);
                        user.entity_id = info.entity_id;
                        self.state.users.insert(k, user);
                        assert(self.state.users@ =~= before.update(
                            k as int,
                            UserInfo { entity_id: info.entity_id, ..before[k as int] },
                        ));
                        proof {
                            if users_ordered(before) {
                                lemma_update_keeps_order(before, k as int, self.state.users@[k as int]);
                            }
                        }
                    },
                    None => {
                        let mut p: usize = 0;
                        while p < self.state.users.len() && self.state.users[p].user_id.0
                            <= info.user_id
                            invariant
                                p <= self.state.users@.len(),
                                self.state.users@ == before,
                                insert_position(before, info.user_id, 0) == insert_position(
                                    before,
                                    info.user_id,
                                    p as int,
                                ),
                            decreases self.state.users@.len() - p,
                        {
                            p = p + 1;
                        }
                        assert(insert_position(before, info.user_id, 0) == p as int);
                        let user = UserInfo {
                            classes: ClassList::new(),
                            name: info.name,
                            user_id: UserId(info.user_id),
                            steam_id: info.steam_id,
                            entity_id: info.entity_id,
                            team: crate::records::Team::Other,
                            health: Vec::new(),
                        };
                        let ghost fresh = user;
                        self.state.users.insert(p, user);
                        assert(self.state.users@.remove(p as int) =~= before);
                        proof {
                            if users_ordered(before) {
                                lemma_insert_keeps_order(before, fresh);
                            }
                        }
                    },
                }
                Ok(())
            },
        }
    }
}

} // verus!
