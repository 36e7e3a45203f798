use vstd::prelude::*;

use crate::entity::{EntityId, Vector};
use crate::message::{PlayerDeathEvent, PlayerSpawnEvent, TeamPlayRoundWinEvent};
use crate::usermessage::{strip_formatting, ChatMessageKind, SayText2Message};

verus! {

/// The side a player is on. Out-of-range codes fall back to `Other`.
#[derive(Clone, Copy, Debug, PartialEq, Eq, Hash, Structural)]
pub enum Team {
    Other,
    Spectator,
    Red,
    Blue,
}

/// The team that a numeric team code denotes.
pub open spec fn team_of(number: int) -> Team {
    if number == 1 {
        Team::Spectator
    } else if number == 2 {
        Team::Red
    } else if number == 3 {
        Team::Blue
    } else {
        Team::Other
    }
}

impl Team {
    /// Reads a team code; anything but 1, 2 or 3 is `Other`.
    pub fn new(number: i64) -> (r: Team)
        ensures
            r == team_of(number as int),
    {
        if number == 1 {
            Team::Spectator
        } else if number == 2 {
            Team::Red
        } else if number == 3 {
            Team::Blue
        } else {
            Team::Other
        }
    }

    /// Whether the team is one of the two playing teams.
    pub fn is_player(&self) -> (r: bool)
        ensures
            r == (*self == Team::Red || *self == Team::Blue),
    {
        *self == Team::Red || *self == Team::Blue
    }
}

} // verus!

verus! {

/// A player class. Out-of-range codes fall back to `Other`.
#[derive(Clone, Copy, Debug, PartialEq, Eq, Hash, Structural)]
pub enum Class {
    Other,
    Scout,
    Sniper,
    Soldier,
    Demoman,
    Medic,
    Heavy,
    Pyro,
    Spy,
    Engineer,
}

/// The class that a numeric class code denotes.
pub open spec fn class_of(number: int) -> Class {
    if number == 1 {
        Class::Scout
    } else if number == 2 {
        Class::Sniper
    } else if number == 3 {
        Class::Soldier
    } else if number == 4 {
        Class::Demoman
    } else if number == 5 {
        Class::Medic
    } else if number == 6 {
        Class::Heavy
    } else if number == 7 {
        Class::Pyro
    } else if number == 8 {
        Class::Spy
    } else if number == 9 {
        Class::Engineer
    } else {
        Class::Other
    }
}

/// The numeric code of a class, the inverse of `class_of` on `0..10`.
pub open spec fn class_code(class: Class) -> int {
    match class {
        Class::Other => 0,
        Class::Scout => 1,
        Class::Sniper => 2,
        Class::Soldier => 3,
        Class::Demoman => 4,
        Class::Medic => 5,
        Class::Heavy => 6,
        Class::Pyro => 7,
        Class::Spy => 8,
        Class::Engineer => 9,
    }
}

/// The class whose lower-case name is `name`.
pub open spec fn class_named(name: Seq<char>) -> Option<Class> {
    if name == "other"@ {
        Some(Class::Other)
    } else if name == "scout"@ {
        Some(Class::Scout)
    } else if name == "sniper"@ {
        Some(Class::Sniper)
    } else if name == "soldier"@ {
        Some(Class::Soldier)
    } else if name == "demoman"@ {
        Some(Class::Demoman)
    } else if name == "medic"@ {
        Some(Class::Medic)
    } else if name == "heavy"@ {
        Some(Class::Heavy)
    } else if name == "pyro"@ {
        Some(Class::Pyro)
    } else if name == "spy"@ {
        Some(Class::Spy)
    } else if name == "engineer"@ {
        Some(Class::Engineer)
    } else {
        None
    }
}

/// The lower-case name of a class.
pub open spec fn class_name(class: Class) -> Seq<char> {
    match class {
        Class::Other => "other"@,
        Class::Scout => "scout"@,
        Class::Sniper => "sniper"@,
        Class::Soldier => "soldier"@,
        Class::Demoman => "demoman"@,
        Class::Medic => "medic"@,
        Class::Heavy => "heavy"@,
        Class::Pyro => "pyro"@,
        Class::Spy => "spy"@,
        Class::Engineer => "engineer"@,
    }
}

/// The class a text names: a single decimal digit is a class code, anything
/// else must be a lower-case class name.
pub open spec fn class_of_text(s: Seq<char>) -> Option<Class> {
    if s.len() == 1 {
        if 48 <= (s[0] as u32) && (s[0] as u32) <= 57 {
            Some(class_of((s[0] as u32) - 48))
        } else {
            None
        }
    } else {
        class_named(s)
    }
}

/// The count that the last pair for `class` gives, or 0 when none does.
pub open spec fn last_count(pairs: Seq<(Class, u8)>, class: Class) -> u8
    decreases pairs.len(),
{
    if pairs.len() == 0 {
        0
    } else if pairs.last().0 == class {
        pairs.last().1
    } else {
        last_count(pairs.drop_last(), class)
    }
}

pub proof fn lemma_class_code(class: Class, number: int)
    ensures
        class_of(class_code(class)) == class,
        0 <= class_code(class) < 10,
        0 <= number < 10 ==> class_code(class_of(number)) == number,
{
}

impl Class {
    /// Reads a class code; anything outside `1..=9` is `Other`.
    pub fn new(number: i64) -> (r: Class)
        ensures
            r == class_of(number as int),
    {
        if number == 1 {
            Class::Scout
        } else if number == 2 {
            Class::Sniper
        } else if number == 3 {
            Class::Soldier
        } else if number == 4 {
            Class::Demoman
        } else if number == 5 {
            Class::Medic
        } else if number == 6 {
            Class::Heavy
        } else if number == 7 {
            Class::Pyro
        } else if number == 8 {
            Class::Spy
        } else if number == 9 {
            Class::Engineer
        } else {
            Class::Other
        }
    }

    /// The class of a code in `0..10`; no class for any other code.
    pub fn from_code(code: u32) -> (r: Option<Class>)
        ensures
            r == if code < 10 {
                Some(class_of(code as int))
            } else {
                None::<Class>
            },
    {
        if code < 10 {
            Some(Class::new(code as i64))
        } else {
            None
        }
    }

    /// The class a text names: a single digit is read as a class code, any
    /// other text as a lower-case class name.
    pub fn from_text(text: &str) -> (r: Option<Class>)
        ensures
            r == class_of_text(text@),
    {
        let n = text.unicode_len();
        if n == 1 {
            let v = text.get_char(0) as u32;
            if 48 <= v && v <= 57 {
                Class::from_code(v - 48)
            } else {
                None
            }
        } else {
            Class::from_name(text)
        }
    }

    /// The class of a lower-case class name.
    pub fn from_name(name: &str) -> (r: Option<Class>)
        ensures
            r == class_named(name@),
    {
        let n = name.to_owned();
        if n == "other".to_owned() {
            Some(Class::Other)
        } else if n == "scout".to_owned() {
            Some(Class::Scout)
        } else if n == "sniper".to_owned() {
            Some(Class::Sniper)
        } else if n == "soldier".to_owned() {
            Some(Class::Soldier)
        } else if n == "demoman".to_owned() {
            Some(Class::Demoman)
        } else if n == "medic".to_owned() {
            Some(Class::Medic)
        } else if n == "heavy".to_owned() {
            Some(Class::Heavy)
        } else if n == "pyro".to_owned() {
            Some(Class::Pyro)
        } else if n == "spy".to_owned() {
            Some(Class::Spy)
        } else if n == "engineer".to_owned() {
            Some(Class::Engineer)
        } else {
            None
        }
    }

    /// The lower-case name of the class.
    pub fn name(&self) -> (r: String)
        ensures
            r@ == class_name(*self),
    {
        match self {
            Class::Other => "other".to_owned(),
            Class::Scout => "scout".to_owned(),
            Class::Sniper => "sniper".to_owned(),
            Class::Soldier => "soldier".to_owned(),
            Class::Demoman => "demoman".to_owned(),
            Class::Medic => "medic".to_owned(),
            Class::Heavy => "heavy".to_owned(),
            Class::Pyro => "pyro".to_owned(),
            Class::Spy => "spy".to_owned(),
            Class::Engineer => "engineer".to_owned(),
        }
    }

    /// The numeric code of the class.
    pub fn code(&self) -> (r: usize)
        ensures
            r as int == class_code(*self),
    {
        match self {
            Class::Other => 0,
            Class::Scout => 1,
            Class::Sniper => 2,
            Class::Soldier => 3,
            Class::Demoman => 4,
            Class::Medic => 5,
            Class::Heavy => 6,
            Class::Pyro => 7,
            Class::Spy => 8,
            Class::Engineer => 9,
        }
    }
}

/// Spawn counts per class, indexed by class code.
#[derive(Clone, Copy, Debug, PartialEq, Eq)]
pub struct ClassList(pub [u8; 10]);

/// The classes with a non-zero count among the first `n` codes, in code
/// order, each with its count.
pub open spec fn played_prefix(counts: Seq<u8>, n: nat) -> Seq<(Class, u8)>
    decreases n,
{
    if n == 0 {
        seq![]
    } else {
        let front = played_prefix(counts, (n - 1) as nat);
        if counts[n - 1] > 0 {
            front.push((class_of(n - 1), counts[n - 1]))
        } else {
            front
        }
    }
}

/// The order of `sorted`: more spawns first, then the lower class code.
pub open spec fn ranks_before(a: (Class, u8), b: (Class, u8)) -> bool {
    a.1 > b.1 || (a.1 == b.1 && class_code(a.0) < class_code(b.0))
}

impl ClassList {
    /// A list with no spawns.
    pub fn new() -> (r: ClassList)
        ensures
            forall|i: int| 0 <= i < 10 ==> r.0[i] == 0,
    {
        ClassList([0u8; 10])
    }

    /// A list from `(class, count)` pairs: each class gets the count of the
    /// last pair for it, or 0 when no pair names it.
    pub fn from_counts(pairs: &Vec<(Class, u8)>) -> (r: ClassList)
        ensures
            forall|c: int| 0 <= c < 10 ==> r.0[c] == last_count(pairs@, class_of(c)),
    {
        let mut list = ClassList::new();
        let mut i: usize = 0;
        assert(pairs@.take(0) =~= Seq::<(Class, u8)>::empty());
        while i < pairs.len()
            invariant
                i <= pairs@.len(),
                forall|c: int|
                    0 <= c < 10 ==> list.0[c] == last_count(pairs@.take(i as int), class_of(c)),
            decreases pairs@.len() - i,
        {
            let (class, count) = pairs[i];
            let code = class.code();
            proof {
                lemma_class_code(class, 0);
            }
            list.0[code] = count;
            assert(pairs@.take(i + 1).drop_last() =~= pairs@.take(i as int));
            assert forall|c: int| 0 <= c < 10 implies list.0[c] == last_count(
                pairs@.take(i + 1),
                class_of(c),
            ) by {
                lemma_class_code(class, c);
            }
            i = i + 1;
        }
        assert(pairs@.take(i as int) =~= pairs@);
        list
    }

    /// The spawn count of one class.
    pub fn get(&self, class: Class) -> (r: u8)
        ensures
            r == self.0[class_code(class)],
    {
        self.0[class.code()]
    }

    /// Adds one spawn to a class; a count already at 255 stays there.
    pub fn add_spawn(&mut self, class: Class)
        ensures
            final(self).0@ == old(self).0@.update(
                class_code(class),
                if old(self).0[class_code(class)] < 255 {
                    (old(self).0[class_code(class)] + 1) as u8
                } else {
                    255u8
                },
            ),
    {
        let i = class.code();
        let c = self.0[i];
        if c < 255 {
            self.0[i] = c + 1;
        } else {
            self.0[i] = 255;
        }
    }

    /// Every class played, with its number of spawns, in class-code order.
    pub fn iter(&self) -> (r: Vec<(Class, u8)>)
        ensures
            r@ == played_prefix(self.0@, 10),
    {
        let mut r: Vec<(Class, u8)> = Vec::new();
        let mut i: usize = 0;
        while i < 10
            invariant
                i <= 10,
                r@ == played_prefix(self.0@, i as nat),
            decreases 10 - i,
        {
            let c = self.0[i];
            if c > 0 {
                r.push((Class::new(i as i64), c));
            }
            i = i + 1;
        }
        r
    }

    /// Every class played, with its number of spawns, most spawns first; equal
    /// counts keep class-code order.
    pub fn sorted(&self) -> (r: Vec<(Class, u8)>)
        ensures
            forall|i: int|
                0 <= i < r@.len() ==> r@[i].1 > 0 && r@[i].1 == self.0[class_code(#[trigger] r@[i].0)],
            forall|k: int|
                0 <= k < 10 && self.0[k] > 0 ==> exists|i: int|
                    0 <= i < r@.len() && #[trigger] r@[i].0 == class_of(k),
            forall|i: int, j: int| 0 <= i < j < r@.len() ==> ranks_before(r@[i], r@[j]),
    {
        let mut r: Vec<(Class, u8)> = Vec::new();
        let mut c: u16 = 255;
        while c > 0
            invariant
                c <= 255,
                forall|i: int| 0 <= i < r@.len() ==> #[trigger] r@[i].1 > c,
                forall|i: int|
                    0 <= i < r@.len() ==> r@[i].1 == self.0[class_code(#[trigger] r@[i].0)],
                forall|k: int|
                    0 <= k < 10 && self.0[k] > c ==> exists|i: int|
                        0 <= i < r@.len() && #[trigger] r@[i].0 == class_of(k),
                forall|i: int, j: int| 0 <= i < j < r@.len() ==> ranks_before(r@[i], r@[j]),
            decreases c,
        {
            let mut k: usize = 0;
            while k < 10
                invariant
                    1 <= c <= 255,
                    k <= 10,
                    forall|i: int|
                        0 <= i < r@.len() ==> (#[trigger] r@[i].1 > c || (r@[i].1 == c
                            && class_code(r@[i].0) < k)),
                    forall|i: int|
                        0 <= i < r@.len() ==> r@[i].1 == self.0[class_code(#[trigger] r@[i].0)],
                    forall|k2: int|
                        0 <= k2 < 10 && (self.0[k2] > c || (self.0[k2] == c && k2 < k))
                            ==> exists|i: int|
                            0 <= i < r@.len() && #[trigger] r@[i].0 == class_of(k2),
                    forall|i: int, j: int| 0 <= i < j < r@.len() ==> ranks_before(r@[i], r@[j]),
                decreases 10 - k,
            {
                if self.0[k] as u16 == c {
                    let class = Class::new(k as i64);
                    proof {
                        lemma_class_code(class, k as int);
                    }
                    let ghost old_r = r@;
                    r.push((class, c as u8));
                    assert(forall|i: int| 0 <= i < old_r.len() ==> r@[i] == old_r[i]);
                    assert forall|k2: int|
                        0 <= k2 < 10 && (self.0[k2] > c || (self.0[k2] == c && k2 < k + 1))
                            implies exists|i: int|
                            0 <= i < r@.len() && #[trigger] r@[i].0 == class_of(k2) by {
                        if k2 == k {
                            assert(r@[old_r.len() as int].0 == class_of(k2));
                        } else {
                            let i = choose|i: int|
                                0 <= i < old_r.len() && #[trigger] old_r[i].0 == class_of(k2);
                            assert(r@[i].0 == class_of(k2));
                        }
                    }
                }
                k = k + 1;
            }
            c = c - 1;
        }
        r
    }
}

} // verus!

verus! {

/// A player's persistent identity for the whole match.
#[derive(Clone, Copy, Debug, PartialEq, Eq, Hash, PartialOrd, Ord, Structural)]
pub struct UserId(pub u16);

impl UserId {
    /// The low 16 bits of a wider id.
    pub fn from_u32(id: u32) -> (r: UserId)
        ensures
            r.0 == id as u16,
    {
        UserId(id as u16)
    }

    /// The id as a wider integer.
    pub fn to_u32(&self) -> (r: u32)
        ensures
            r == self.0 as u32,
    {
        self.0 as u32
    }

    /// Whether the id is `other`.
    pub fn is(&self, other: u16) -> (r: bool)
        ensures
            r == (self.0 == other),
    {
        self.0 == other
    }
}

/// A chat line of the match log.
#[derive(Debug)]
pub struct ChatMessage {
    pub kind: ChatMessageKind,
    pub from: String,
    pub text: String,
    pub tick: u32,
}

/// Whether `c` is the chat line that `message` at `tick` records.
pub open spec fn records_chat(c: ChatMessage, message: SayText2Message, tick: u32) -> bool {
    &&& c.kind == message.kind
    &&& c.from@ == match message.from {
        Some(f) => f@,
        None => Seq::<char>::empty(),
    }
    &&& c.text@ == strip_formatting(message.text@)
    &&& c.tick == tick
}

impl ChatMessage {
    /// The chat line that a `SayText2` message at `tick` records: a missing
    /// sender becomes the empty name, and the text loses its formatting.
    pub fn from_message(message: &SayText2Message, tick: u32) -> (r: ChatMessage)
        ensures
            records_chat(r, *message, tick),
    {
        let from = match &message.from {
            Some(f) => f.clone(),
            None => String::new(),
        };
        ChatMessage { kind: message.kind, from, text: message.plain_text(), tick }
    }
}

/// A spawn of a player.
#[derive(Clone, Copy, Debug, PartialEq, Eq, Structural)]
pub struct Spawn {
    pub user: UserId,
    pub class: Class,
    pub team: Team,
    pub tick: u32,
}

impl Spawn {
    /// The spawn that an event at `tick` records.
    pub fn from_event(event: &PlayerSpawnEvent, tick: u32) -> (r: Spawn)
        ensures
            r.user.0 == event.user_id,
            r.class == class_of(event.class as int),
            r.team == team_of(event.team as int),
            r.tick == tick,
    {
        Spawn {
            user: UserId(event.user_id),
            class: Class::new(event.class as i64),
            team: Team::new(event.team as i64),
            tick,
        }
    }
}

/// Ids of at least this value mean that nobody assisted a kill.
pub const NO_ASSISTER: u16 = 16384;

/// A kill.
#[derive(Debug)]
pub struct Death {
    pub weapon: String,
    pub victim: UserId,
    pub assister: Option<UserId>,
    pub killer: UserId,
    pub tick: u32,
}

/// Whether `d` is the kill that `event` at `tick` records; an assister id of
/// 16384 or more means no assister.
pub open spec fn records_death(d: Death, event: PlayerDeathEvent, tick: u32) -> bool {
    &&& d.weapon@ == event.weapon@
    &&& d.victim.0 == event.user_id
    &&& d.killer.0 == event.attacker
    &&& d.assister == if event.assister < NO_ASSISTER {
        Some(UserId(event.assister))
    } else {
        None::<UserId>
    }
    &&& d.tick == tick
}

impl Death {
    /// The kill that an event at `tick` records; an assister id of 16384 or
    /// more means no assister.
    pub fn from_event(event: &PlayerDeathEvent, tick: u32) -> (r: Death)
        ensures
            records_death(r, *event, tick),
    {
        let assister = if event.assister < NO_ASSISTER {
            Some(UserId(event.assister))
        } else {
            None
        };
        Death {
            assister,
            tick,
            killer: UserId(event.attacker),
            weapon: event.weapon.clone(),
            victim: UserId(event.user_id),
        }
    }
}

/// A round won before the time limit.
#[derive(Clone, Copy, Debug, PartialEq, Eq, Structural)]
pub struct Round {
    pub winner: Team,
    /// The round's length in seconds, as an IEEE-754 single-precision bit
    /// pattern.
    pub length: u32,
    pub end_tick: u32,
}

impl Round {
    /// The round that an event at `tick` records.
    pub fn from_event(event: &TeamPlayRoundWinEvent, tick: u32) -> (r: Round)
        ensures
            r.winner == team_of(event.team as int),
            r.length == event.round_time,
            r.end_tick == tick,
    {
        Round { winner: Team::new(event.team as i64), length: event.round_time, end_tick: tick }
    }
}

/// The bounds of the map.
#[derive(Clone, Copy, Debug, PartialEq, Eq, Structural)]
pub struct World {
    pub boundary_min: Vector,
    pub boundary_max: Vector,
}

/// A pause of the match, from the tick it began to the tick it ended.
#[derive(Clone, Copy, Debug, PartialEq, Eq, Structural)]
pub struct Pause {
    pub from: u32,
    pub to: u32,
}

/// A player's persistent record.
#[derive(Debug)]
pub struct UserInfo {
    pub classes: ClassList,
    pub name: String,
    pub user_id: UserId,
    pub steam_id: String,
    /// The entity the player controls now; not part of the record's identity.
    pub entity_id: EntityId,
    pub team: Team,
    /// `(tick, health)` after each hit taken.
    pub health: Vec<(u32, u16)>,
}

impl ClassList {
    /// Whether both lists hold the same counts.
    pub fn same_counts(&self, other: &ClassList) -> (r: bool)
        ensures
            r == (self.0@ == other.0@),
    {
        let mut i: usize = 0;
        while i < 10
            invariant
                i <= 10,
                forall|j: int| 0 <= j < i ==> self.0[j] == other.0[j],
            decreases 10 - i,
        {
            if self.0[i] != other.0[i] {
                return false;
            }
            i = i + 1;
        }
        assert(self.0@ =~= other.0@);
        true
    }
}

impl PartialEq for UserInfo {
    /// Two records are equal when they agree on everything but the entity
    /// and the health series, which are bookkeeping.
    fn eq(&self, other: &UserInfo) -> (r: bool)
        ensures
            r == (self.classes.0@ == other.classes.0@ && self.name@ == other.name@
                && self.user_id == other.user_id && self.steam_id@ == other.steam_id@
                && self.team == other.team),
    {
        self.classes.same_counts(&other.classes) && self.name == other.name && self.user_id
            == other.user_id && self.steam_id == other.steam_id && self.team == other.team
    }
}

impl vstd::std_specs::cmp::PartialEqSpecImpl for UserInfo {
    open spec fn obeys_eq_spec() -> bool {
        true
    }

    open spec fn eq_spec(&self, other: &UserInfo) -> bool {
        self.classes.0@ == other.classes.0@ && self.name@ == other.name@ && self.user_id
            == other.user_id && self.steam_id@ == other.steam_id@ && self.team == other.team
    }
}

/// View and pitch angle samples of one player entity.
#[derive(Debug)]
pub struct Player {
    pub entity: EntityId,
    pub class: Class,
    /// `(tick, angle)`, the angle as an IEEE-754 single-precision bit pattern.
    pub view_angle: Vec<(u32, u32)>,
    /// `(tick, angle)`, the angle as an IEEE-754 single-precision bit pattern.
    pub pitch_angle: Vec<(u32, u32)>,
}

/// What the analysis of a capture accumulates.
#[derive(Debug)]
pub struct MatchState {
    pub chat: Vec<ChatMessage>,
    /// One record per user id, in increasing order of user id.
    pub users: Vec<UserInfo>,
    pub deaths: Vec<Death>,
    pub rounds: Vec<Round>,
    pub start_tick: u32,
    /// Seconds per tick, as an IEEE-754 single-precision bit pattern.
    pub interval_per_tick: u32,
    pub pauses: Vec<Pause>,
    pub players: Vec<Player>,
}

/// What a player record holds.
pub struct PlayerView {
    pub entity: EntityId,
    pub class: Class,
    pub view_angle: Seq<(u32, u32)>,
    pub pitch_angle: Seq<(u32, u32)>,
}

impl View for Player {
    type V = PlayerView;

    open spec fn view(&self) -> PlayerView {
        PlayerView {
            entity: self.entity,
            class: self.class,
            view_angle: self.view_angle@,
            pitch_angle: self.pitch_angle@,
        }
    }
}

pub open spec fn players_view(players: Seq<Player>) -> Seq<PlayerView> {
    players.map_values(|p: Player| p@)
}

/// The position of the first player record of `entity`, searching from `i`.
pub open spec fn player_position(players: Seq<PlayerView>, entity: EntityId, i: int) -> Option<
    int,
>
    decreases players.len() - i,
{
    if i < 0 || i >= players.len() {
        None
    } else if players[i].entity == entity {
        Some(i)
    } else {
        player_position(players, entity, i + 1)
    }
}

pub proof fn lemma_player_position(players: Seq<PlayerView>, entity: EntityId, i: int)
    ensures
        player_position(players, entity, i) matches Some(k) ==> i <= k < players.len()
            && players[k].entity == entity,
    decreases players.len() - i,
{
    if 0 <= i < players.len() && players[i].entity != entity {
        lemma_player_position(players, entity, i + 1);
    }
}

/// The players with a record for `entity`, and the position of that record:
/// a fresh one is appended when there is none.
pub open spec fn with_player(players: Seq<PlayerView>, entity: EntityId) -> (Seq<PlayerView>, int) {
    match player_position(players, entity, 0) {
        Some(k) => (players, k),
        None => (
            players.push(
                PlayerView {
                    entity,
                    class: Class::Other,
                    view_angle: Seq::empty(),
                    pitch_angle: Seq::empty(),
                },
            ),
            players.len() as int,
        ),
    }
}

/// Where a new record of user `id` goes to keep the records ordered by id:
/// before the first record, from `i` on, with a greater id.
pub open spec fn insert_position(users: Seq<UserInfo>, id: u16, i: int) -> int
    decreases users.len() - i,
{
    if i < 0 || i >= users.len() {
        users.len() as int
    } else if users[i].user_id.0 > id {
        i
    } else {
        insert_position(users, id, i + 1)
    }
}

pub proof fn lemma_insert_position(users: Seq<UserInfo>, id: u16, i: int)
    requires
        0 <= i <= users.len(),
    ensures
        i <= insert_position(users, id, i) <= users.len(),
        forall|a: int| i <= a < insert_position(users, id, i) ==> #[trigger] users[a].user_id.0 <= id,
        insert_position(users, id, i) < users.len() ==> users[insert_position(users, id, i)].user_id.0
            > id,
    decreases users.len() - i,
{
    if i < users.len() && users[i].user_id.0 <= id {
        lemma_insert_position(users, id, i + 1);
    }
}

/// Whether the records are in strictly increasing order of user id, so that
/// no id has two records.
pub open spec fn users_ordered(users: Seq<UserInfo>) -> bool {
    forall|a: int, b: int|
        0 <= a < b < users.len() ==> (#[trigger] users[a]).user_id.0 < (#[trigger] users[b]).user_id.0
}

proof fn lemma_user_absent(users: Seq<UserInfo>, id: u16, i: int)
    requires
        0 <= i,
        user_position(users, id, i) is None,
    ensures
        forall|a: int| i <= a < users.len() ==> #[trigger] users[a].user_id.0 != id,
    decreases users.len() - i,
{
    if i < users.len() {
        lemma_user_absent(users, id, i + 1);
    }
}

/// Replacing a record by one with the same user id keeps the order.
pub proof fn lemma_update_keeps_order(users: Seq<UserInfo>, k: int, x: UserInfo)
    requires
        0 <= k < users.len(),
        x.user_id == users[k].user_id,
        users_ordered(users),
    ensures
        users_ordered(users.update(k, x)),
{
    let after = users.update(k, x);
    assert forall|a: int, b: int| 0 <= a < b < after.len() implies (#[trigger] after[a]).user_id.0
        < (#[trigger] after[b]).user_id.0 by {
        assert(after[a].user_id == users[a].user_id);
        assert(after[b].user_id == users[b].user_id);
    }
}

/// Inserting the record of a new user where `insert_position` puts it keeps
/// the order.
pub proof fn lemma_insert_keeps_order(users: Seq<UserInfo>, x: UserInfo)
    requires
        users_ordered(users),
        user_position(users, x.user_id.0, 0) is None,
    ensures
        users_ordered(users.insert(insert_position(users, x.user_id.0, 0), x)),
{
    let id = x.user_id.0;
    let p = insert_position(users, id, 0);
    lemma_insert_position(users, id, 0);
    lemma_user_absent(users, id, 0);
    let after = users.insert(p, x);
    assert forall|a: int| 0 <= a < p implies #[trigger] users[a].user_id.0 < id by {
        assert(users[a].user_id.0 <= id);
    }
    assert forall|a: int| p <= a < users.len() implies #[trigger] users[a].user_id.0 > id by {
        if a > p {
            assert(users[p].user_id.0 < users[a].user_id.0);
        }
    }
    assert forall|a: int, b: int| 0 <= a < b < after.len() implies (#[trigger] after[a]).user_id.0
        < (#[trigger] after[b]).user_id.0 by {
        if b < p {
            assert(after[a] == users[a] && after[b] == users[b]);
        } else if b == p {
            assert(after[a] == users[a]);
        } else if a < p {
            assert(after[a] == users[a] && after[b] == users[b - 1]);
        } else if a == p {
            assert(after[b] == users[b - 1]);
        } else {
            assert(after[a] == users[a - 1] && after[b] == users[b - 1]);
        }
    }
}

/// The position of the first record named `name`, searching from `i`.
pub open spec fn name_holder(users: Seq<UserInfo>, name: Seq<char>, i: int) -> Option<int>
    decreases users.len() - i,
{
    if i < 0 || i >= users.len() {
        None
    } else if users[i].name@ == name {
        Some(i)
    } else {
        name_holder(users, name, i + 1)
    }
}

/// The position of the first record of user `id`, searching from `i`.
pub open spec fn user_position(users: Seq<UserInfo>, id: u16, i: int) -> Option<int>
    decreases users.len() - i,
{
    if i < 0 || i >= users.len() {
        None
    } else if users[i].user_id.0 == id {
        Some(i)
    } else {
        user_position(users, id, i + 1)
    }
}

impl MatchState {
    /// An empty state.
    pub fn new() -> (r: MatchState)
        ensures
            r.chat@.len() == 0,
            r.users@.len() == 0,
            r.deaths@.len() == 0,
            r.rounds@.len() == 0,
            r.start_tick == 0,
            r.interval_per_tick == 0,
            r.pauses@.len() == 0,
            r.players@.len() == 0,
    {
        MatchState {
            chat: Vec::new(),
            users: Vec::new(),
            deaths: Vec::new(),
            rounds: Vec::new(),
            start_tick: 0,
            interval_per_tick: 0,
            pauses: Vec::new(),
            players: Vec::new(),
        }
    }

    /// The position of the player record of `entity_id`, appending a fresh
    /// record when there is none.
    pub fn get_or_create_player(&mut self, entity_id: EntityId) -> (r: usize)
        ensures
            (players_view(final(self).players@), r as int) == with_player(
                players_view(old(self).players@),
                entity_id,
            ),
            r < final(self).players@.len(),
            *final(self) == (MatchState { players: final(self).players, ..*old(self) }),
    {
        let ghost pv = players_view(self.players@);
        let mut i: usize = 0;
        while i < self.players.len()
            invariant
                i <= self.players@.len(),
                pv == players_view(self.players@),
                player_position(pv, entity_id, 0) == player_position(pv, entity_id, i as int),
            decreases self.players@.len() - i,
        {
            assert(pv[i as int] == self.players@[i as int]@);
            if self.players[i].entity == entity_id {
                return i;
            }
            i = i + 1;
        }
        self.players.push(
            Player {
                entity: entity_id,
                class: Class::Other,
                view_angle: Vec::new(),
                pitch_angle: Vec::new(),
            },
        );
        assert(players_view(self.players@) =~= with_player(pv, entity_id).0);
        i
    }
}

} // verus!
