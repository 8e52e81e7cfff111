//! The event-sourced simulation core: game events, the event manager, the
//! per-tick stages (vision, transition, attacks), event advancement against
//! authoritative state, and the round/game loop.

use vstd::prelude::*;

use rand::Rng;

use crate::character::{
    spec_command_index, Character, Command, Commands, CurrentCharacterState, Event, EventError,
    Id, Impl, Intent, Meta, MovementDirection, State, Stats,
};
use crate::math_utils::{
    clamp, cos_fp, line_endpoint, normalize_absolute_angle, scale, sin_fp, spec_clamp,
    spec_cos_fp, spec_dist, spec_dist_sqr, spec_line_endpoint, spec_normalize_absolute_angle,
    spec_scale, spec_sin_fp, Point, Sector, COORD_LIMIT, HALF_PI, PI, TWO_PI,
};
use crate::settings::{
    ANGLE_OF_ACTION, ATTACK_COOLDOWN, ATTACK_DAMAGE, ATTACK_RADIUS, ATTACK_VELOCITY,
    ANGLE_OF_VISION, CHARACTER_RADIUS, HEIGHT, INITIAL_HP, INTENT_LIMIT, MAX_ARMS_TURN_RATE, MAX_ATTACKS,
    MAX_CHARACTERS, MAX_HEAD_TURN_RATE, MAX_TURN_RATE, MAX_VELOCITY, SPAWN_GRID_COLS,
    SPAWN_GRID_STEP, SPAWN_MARGIN, WIDTH,
};

verus! {

/// Identifier of a projectile; monotonically allocated, never reused.
#[derive(PartialEq, Eq, Structural, Debug, Clone, Copy)]
pub struct AttackId(pub usize);

/// A projectile in flight.
#[derive(Debug)]
pub struct Attack {
    pub id: AttackId,
    pub pos: Point,
    pub owner: Meta,
    pub heading: i64,
    pub velocity: i64,
}

impl Clone for Attack {
    /// A clone keeps every field.
    fn clone(&self) -> (r: Self)
        ensures
            r == *self,
    {
        Attack {
            id: self.id,
            pos: self.pos,
            owner: self.owner.clone(),
            heading: self.heading,
            velocity: self.velocity,
        }
    }
}

/// Well-formedness of a projectile in flight: it is inside the arena, its
/// heading is normalized and its velocity bounded by the attack velocity. An
/// attack-created or attack-advanced event that would break this is ignored
/// by the advancement step, as every other malformed event is.
pub open spec fn spec_attack_wf(a: Attack) -> bool {
    &&& 0 <= a.pos.x <= WIDTH
    &&& 0 <= a.pos.y <= HEIGHT
    &&& 0 <= a.heading < TWO_PI
    &&& 0 <= a.velocity <= ATTACK_VELOCITY
}

/// Allocator of projectile identifiers: a monotonic counter.
pub struct AttackIds {
    pub next: usize,
}

impl AttackIds {
    /// Starts counting at zero.
    pub fn new() -> (r: Self)
        ensures
            r.next == 0,
    {
        Self { next: 0 }
    }

    /// Hands out the next identifier and advances the counter.
    pub fn next(&mut self) -> (r: AttackId)
        requires
            old(self).next < usize::MAX,
        ensures
            r == AttackId(old(self).next),
            final(self).next == old(self).next + 1,
    {
        let next = self.next;
        self.next = self.next + 1;
        AttackId(next)
    }
}

/// The terminal state of a round, once decided.
#[derive(Debug)]
pub enum RoundState {
    Ongoing,
    Won(Meta),
    Draw,
}

/// A round number within a game.
#[derive(Debug, Clone, Copy, PartialEq, Eq, Structural)]
pub struct Round(pub u16);

/// A tick number within a round.
#[derive(Debug, Clone, Copy, PartialEq, Eq, Structural)]
pub struct Tick(pub u32);

impl Tick {
    /// Steps the tick counter forward by one.
    pub fn advance(&mut self)
        requires
            old(self).0 < u32::MAX,
        ensures
            final(self).0 == old(self).0 + 1,
    {
        self.0 = self.0 + 1;
    }
}

/// A displacement applied to a character's position in one tick.
#[derive(Clone, Copy, Debug)]
pub struct Delta {
    pub value: Point,
}

impl Delta {
    /// Wraps a displacement vector.
    pub fn new(value: Point) -> (r: Self)
        ensures
            r.value == value,
    {
        Self { value }
    }
}

/// A character's starting position in a round, as recorded by the
/// round-started event.
#[derive(Debug, Clone)]
pub struct Placement {
    pub meta: Meta,
    pub pos: Point,
}

/// One state transition of the simulation. Events are the single source of
/// truth: the authoritative state changes only by applying them, and turn /
/// movement events carry deltas, never absolute values, so a consumer can
/// replay a round by folding its events.
#[derive(Debug, Clone)]
pub enum GameEvent {
    Tick(Tick),
    RoundStarted(Round, Vec<Placement>),
    RoundEnded(Option<Meta>),
    CharacterHeadTurned(Meta, i64),
    CharacterArmsTurned(Meta, i64),
    Hit(AttackId, Meta, Meta, Point),
    AttackAdvanced(AttackId, Point),
    AttackMissed(AttackId),
    AttackCreated(Meta, Attack),
    CharacterPositionUpdated(Meta, Delta),
    CharacterTurned(Meta, i64),
    CharacterDied(Meta),
}

/// The ordered batch of events one tick produced; the unit of replay.
#[derive(Debug, Clone)]
pub struct StepEvents {
    pub events: Vec<GameEvent>,
}

impl StepEvents {
    /// An empty batch.
    pub fn new() -> (r: Self)
        ensures
            r.events@ =~= Seq::<GameEvent>::empty(),
    {
        Self { events: Vec::new() }
    }
}

/// Whether the event manager keeps every past batch (for replay) or drops
/// each batch once its tick is over (to bound memory in live play).
#[derive(PartialEq, Eq, Structural, Debug, Clone, Copy)]
pub enum EventRemembrance {
    Remember,
    Forget,
}

/// Accumulates the events of the current tick into an ordered batch and,
/// in [`EventRemembrance::Remember`] mode, archives every finished batch.
pub struct EventManager {
    pub current_events: StepEvents,
    pub all_events: Vec<StepEvents>,
    pub mode: EventRemembrance,
}

impl EventManager {
    /// The events recorded in the currently open batch, in order.
    pub open spec fn current(self) -> Seq<GameEvent> {
        self.current_events.events@
    }

    /// The archived batches, oldest first.
    pub open spec fn history(self) -> Seq<Seq<GameEvent>> {
        self.all_events@.map(|i: int, s: StepEvents| s.events@)
    }

    /// In `Forget` mode no history is ever retained.
    pub open spec fn wf(self) -> bool {
        self.mode == EventRemembrance::Forget ==> self.all_events@.len() == 0
    }

    /// An event manager with an empty batch and no history.
    pub fn new(mode: EventRemembrance) -> (r: EventManager)
        ensures
            r.wf(),
            r.current() =~= Seq::<GameEvent>::empty(),
            r.history() =~= Seq::<Seq<GameEvent>>::empty(),
            r.mode == mode,
    {
        Self { current_events: StepEvents::new(), all_events: Vec::new(), mode }
    }

    /// Whether finished batches are archived.
    fn remember_events(&self) -> (r: bool)
        ensures
            r == (self.mode == EventRemembrance::Remember),
    {
        self.mode == EventRemembrance::Remember
    }

    /// Archives the open batch (in `Remember` mode) and leaves the current
    /// batch empty.
    fn archive_current(&mut self)
        requires
            old(self).wf(),
            old(self).all_events@.len() < usize::MAX,
        ensures
            final(self).wf(),
            final(self).mode == old(self).mode,
            final(self).current() =~= Seq::<GameEvent>::empty(),
            old(self).mode == EventRemembrance::Remember ==> final(self).history() =~= old(self).history().push(old(self).current()),
            old(self).mode == EventRemembrance::Forget ==> final(self).history() =~= old(self).history(),
    {
        if self.remember_events() {
            let mut prev = StepEvents::new();
            core::mem::swap(&mut self.current_events, &mut prev);
            self.all_events.push(prev);
        } else {
            self.current_events = StepEvents::new();
        }
    }

    /// Opens a new round: archives the previous batch (in `Remember` mode)
    /// and seeds the batch with a single round-started event.
    pub fn init_round(&mut self, round: Round, characters: Vec<Placement>)
        requires
            old(self).wf(),
            old(self).all_events@.len() < usize::MAX,
        ensures
            final(self).wf(),
            final(self).mode == old(self).mode,
            final(self).current() =~= seq![GameEvent::RoundStarted(round, characters)],
            old(self).mode == EventRemembrance::Remember ==> final(self).history() =~= old(self).history().push(old(self).current()),
            old(self).mode == EventRemembrance::Forget ==> final(self).history() =~= old(self).history(),
    {
        self.archive_current();
        let mut events: Vec<GameEvent> = Vec::new();
        events.push(GameEvent::RoundStarted(round, characters));
        self.current_events = StepEvents { events };
    }

    /// Opens a new tick. On tick zero the tick event joins the round-started
    /// batch; on later ticks the previous batch is archived (in `Remember`
    /// mode) and a fresh batch starts with the tick event.
    pub fn init_tick(&mut self, tick: Tick)
        requires
            old(self).wf(),
            old(self).all_events@.len() < usize::MAX,
            old(self).current().len() < usize::MAX,
        ensures
            final(self).wf(),
            final(self).mode == old(self).mode,
            tick.0 == 0 ==> final(self).current() =~= old(self).current().push(
                GameEvent::Tick(tick),
            ),
            tick.0 == 0 ==> final(self).history() =~= old(self).history(),
            tick.0 != 0 ==> final(self).current() =~= seq![GameEvent::Tick(tick)],
            tick.0 != 0 && old(self).mode == EventRemembrance::Remember ==> final(self).history() =~= old(self).history().push(old(self).current()),
            tick.0 != 0 && old(self).mode == EventRemembrance::Forget ==> final(self).history() =~= old(self).history(),
    {
        if tick.0 == 0 {
            self.current_events.events.push(GameEvent::Tick(tick));
        } else {
            self.archive_current();
            let mut events: Vec<GameEvent> = Vec::new();
            events.push(GameEvent::Tick(tick));
            self.current_events = StepEvents { events };
        }
    }

    /// Appends one event to the open batch.
    pub fn record(&mut self, event: GameEvent)
        requires
            old(self).current().len() < usize::MAX,
        ensures
            final(self).current() =~= old(self).current().push(event),
            final(self).history() =~= old(self).history(),
            final(self).mode == old(self).mode,
            old(self).wf() ==> final(self).wf(),
    {
        self.current_events.events.push(event);
    }

    /// The currently open batch.
    pub fn current_events(&self) -> (r: &StepEvents)
        ensures
            r.events@ == self.current(),
    {
        &self.current_events
    }

    /// The archived batches, oldest first (empty in `Forget` mode).
    pub fn all_events(&self) -> (r: &Vec<StepEvents>)
        ensures
            r@.map(|i: int, s: StepEvents| s.events@) == self.history(),
    {
        &self.all_events
    }
}


/// Error raised when a character cannot be added to a game.
#[derive(Debug)]
pub struct AddCharacterError(pub String);

/// Aggregate error of the game loop: either a character could not be added,
/// or an adapter failed while handling an event.
#[derive(Debug)]
pub enum GameError {
    AddCharacterError(AddCharacterError),
    LuaCharacterEventError(EventError),
}

impl From<AddCharacterError> for GameError {
    /// Wraps a character-loading failure.
    fn from(err: AddCharacterError) -> (r: GameError) {
        GameError::AddCharacterError(err)
    }
}

impl vstd::std_specs::convert::FromSpecImpl<AddCharacterError> for GameError {
    open spec fn obeys_from_spec() -> bool {
        true
    }

    open spec fn from_spec(err: AddCharacterError) -> GameError {
        GameError::AddCharacterError(err)
    }
}

impl From<EventError> for GameError {
    /// Wraps an adapter failure.
    fn from(err: EventError) -> (r: GameError) {
        GameError::LuaCharacterEventError(err)
    }
}

impl vstd::std_specs::convert::FromSpecImpl<EventError> for GameError {
    open spec fn obeys_from_spec() -> bool {
        true
    }

    open spec fn from_spec(err: EventError) -> GameError {
        GameError::LuaCharacterEventError(err)
    }
}

/// One character's identity and authoritative physical state.
pub struct CharacterEntry {
    pub meta: Meta,
    pub state: State,
}

/// Snapshot of one character used by the specification model: identity,
/// physical state and pending intent.
pub struct CharModel {
    pub meta: Meta,
    pub state: State,
    pub intent: Intent,
}

/// The specification-level snapshot of a whole game, over which the event
/// advancement semantics is stated.
#[verifier::ext_equal]
pub struct GameModel {
    pub tick: u32,
    pub round: u16,
    pub chars: Seq<CharModel>,
    pub attacks: Seq<Attack>,
    pub round_state: RoundState,
    pub next_attack_id: usize,
}

/// Whether two metadata records denote the same loaded character: same
/// script id and same instance counter.
pub open spec fn spec_same_key(a: Meta, b: Meta) -> bool {
    a.id == b.id && a.instance == b.instance
}

/// Whether a character still takes part in the round.
pub open spec fn spec_alive(c: CharModel) -> bool {
    c.state.hp > 0
}

/// Index of the first character with `m`'s key, or `-1` when there is none.
pub open spec fn spec_find_char(chars: Seq<CharModel>, m: Meta) -> int
    decreases chars.len(),
{
    if chars.len() == 0 {
        -1
    } else if spec_same_key(chars[0].meta, m) {
        0
    } else {
        let r = spec_find_char(chars.drop_first(), m);
        if r < 0 {
            -1
        } else {
            r + 1
        }
    }
}

/// `spec_find_char` returns `-1` exactly when no character matches, and
/// otherwise the first matching index.
pub proof fn lemma_find_char(chars: Seq<CharModel>, m: Meta)
    ensures
        -1 <= spec_find_char(chars, m) < chars.len(),
        spec_find_char(chars, m) >= 0 ==> spec_same_key(
            chars[spec_find_char(chars, m)].meta,
            m,
        ) && (forall|j: int|
            0 <= j < spec_find_char(chars, m) ==> !spec_same_key(#[trigger] chars[j].meta, m)),
        spec_find_char(chars, m) == -1 ==> forall|j: int|
            0 <= j < chars.len() ==> !spec_same_key(#[trigger] chars[j].meta, m),
    decreases chars.len(),
{
    if chars.len() > 0 && !spec_same_key(chars[0].meta, m) {
        let rest = chars.drop_first();
        lemma_find_char(rest, m);
        let f = spec_find_char(chars, m);
        let fr = spec_find_char(rest, m);
        if fr < 0 {
            assert forall|j: int| 0 <= j < chars.len() implies !spec_same_key(
                #[trigger] chars[j].meta,
                m,
            ) by {
                if j >= 1 {
                    assert(chars[j] == rest[j - 1]);
                }
            }
        } else {
            assert(chars[f] == rest[fr]);
            assert forall|j: int| 0 <= j < f implies !spec_same_key(#[trigger] chars[j].meta, m) by {
                if j >= 1 {
                    assert(chars[j] == rest[j - 1]);
                }
            }
        }
    }
}

/// Index of the first projectile with identifier `id`, or `-1`.
pub open spec fn spec_find_attack(attacks: Seq<Attack>, id: AttackId) -> int
    decreases attacks.len(),
{
    if attacks.len() == 0 {
        -1
    } else if attacks[0].id == id {
        0
    } else {
        let r = spec_find_attack(attacks.drop_first(), id);
        if r < 0 {
            -1
        } else {
            r + 1
        }
    }
}

/// `spec_find_attack` returns `-1` exactly when no projectile matches, and
/// otherwise the first matching index.
pub proof fn lemma_find_attack(attacks: Seq<Attack>, id: AttackId)
    ensures
        -1 <= spec_find_attack(attacks, id) < attacks.len(),
        spec_find_attack(attacks, id) >= 0 ==> attacks[spec_find_attack(attacks, id)].id == id
            && (forall|j: int|
            0 <= j < spec_find_attack(attacks, id) ==> (#[trigger] attacks[j]).id != id),
        spec_find_attack(attacks, id) == -1 ==> forall|j: int|
            0 <= j < attacks.len() ==> (#[trigger] attacks[j]).id != id,
    decreases attacks.len(),
{
    if attacks.len() > 0 && attacks[0].id != id {
        let rest = attacks.drop_first();
        lemma_find_attack(rest, id);
        let f = spec_find_attack(attacks, id);
        let fr = spec_find_attack(rest, id);
        if fr < 0 {
            assert forall|j: int| 0 <= j < attacks.len() implies (#[trigger] attacks[j]).id
                != id by {
                if j >= 1 {
                    assert(attacks[j] == rest[j - 1]);
                }
            }
        } else {
            assert(attacks[f] == rest[fr]);
            assert forall|j: int| 0 <= j < f implies (#[trigger] attacks[j]).id != id by {
                if j >= 1 {
                    assert(attacks[j] == rest[j - 1]);
                }
            }
        }
    }
}

/// The greatest instance counter among characters with script id `id`
/// (zero when there is none).
pub open spec fn spec_max_instance(chars: Seq<CharModel>, id: Id) -> int
    decreases chars.len(),
{
    if chars.len() == 0 {
        0
    } else {
        let rest = spec_max_instance(chars.drop_first(), id);
        let head: int = if chars[0].meta.id == id {
            chars[0].meta.instance as int
        } else {
            0
        };
        if head > rest {
            head
        } else {
            rest
        }
    }
}

/// Every character with script id `id` has an instance counter at most
/// `spec_max_instance`, which itself is a small nonnegative number.
pub proof fn lemma_max_instance(chars: Seq<CharModel>, id: Id)
    ensures
        0 <= spec_max_instance(chars, id) <= u8::MAX,
        forall|j: int|
            0 <= j < chars.len() && (#[trigger] chars[j].meta).id == id ==> chars[j].meta.instance
                <= spec_max_instance(chars, id),
    decreases chars.len(),
{
    if chars.len() > 0 {
        let rest = chars.drop_first();
        lemma_max_instance(rest, id);
        assert forall|j: int|
            0 <= j < chars.len() && (#[trigger] chars[j].meta).id == id implies chars[
            j].meta.instance <= spec_max_instance(chars, id) by {
            if j >= 1 {
                assert(chars[j] == rest[j - 1]);
                assert(rest[j - 1].meta.instance <= spec_max_instance(rest, id));
            }
        }
    }
}

/// Appending one character extends the greatest instance counter by its own
/// contribution.
pub proof fn lemma_max_instance_push(chars: Seq<CharModel>, c: CharModel, id: Id)
    ensures
        spec_max_instance(chars.push(c), id) == (if c.meta.id == id && c.meta.instance as int
            > spec_max_instance(chars, id) {
            c.meta.instance as int
        } else {
            spec_max_instance(chars, id)
        }),
    decreases chars.len(),
{
    if chars.len() == 0 {
        assert(chars.push(c)[0] == c);
        assert(chars.push(c).drop_first() =~= Seq::<CharModel>::empty());
        assert(spec_max_instance(Seq::<CharModel>::empty(), id) == 0);
        assert(spec_max_instance(chars.push(c).drop_first(), id) == 0);
        assert(spec_max_instance(chars, id) == 0);
    } else {
        assert(chars.push(c)[0] == chars[0]);
        assert(chars.push(c).drop_first() =~= chars.drop_first().push(c));
        lemma_max_instance_push(chars.drop_first(), c, id);
        assert(spec_max_instance(chars.push(c).drop_first(), id) == spec_max_instance(
            chars.drop_first().push(c),
            id,
        ));
    }
}

/// The game: all character state and adapters, the projectiles in flight,
/// and the progress of the current round.
pub struct Game<I> {
    pub tick: Tick,
    pub round: Round,
    pub characters: Vec<CharacterEntry>,
    pub impls: Vec<Character<I>>,
    pub attacks: Vec<Attack>,
    pub round_state: RoundState,
    pub attack_ids: AttackIds,
}

impl<I: Impl> Game<I> {
    /// The specification-level snapshot of this game.
    pub open spec fn model(self) -> GameModel {
        GameModel {
            tick: self.tick.0,
            round: self.round.0,
            chars: Seq::new(
                self.characters@.len(),
                |i: int|
                    CharModel {
                        meta: self.characters@[i].meta,
                        state: self.characters@[i].state,
                        intent: self.impls@[i].intent,
                    },
            ),
            attacks: self.attacks@,
            round_state: self.round_state,
            next_attack_id: self.attack_ids.next,
        }
    }

    /// Well-formedness: states, intents and projectiles are well-formed, the
    /// adapter and state tables are aligned, and character keys are pairwise
    /// distinct.
    pub open spec fn wf(self) -> bool {
        &&& self.characters@.len() == self.impls@.len()
        &&& self.characters@.len() <= MAX_CHARACTERS
        &&& self.attacks@.len() <= MAX_ATTACKS
        &&& forall|i: int| 0 <= i < self.attacks@.len() ==> spec_attack_wf(#[trigger] self.attacks@[i])
        &&& forall|i: int|
            0 <= i < self.characters@.len() ==> (#[trigger] self.characters@[i]).state.wf()
        &&& forall|i: int| 0 <= i < self.impls@.len() ==> (#[trigger] self.impls@[i]).intent.wf()
        &&& forall|i: int, j: int|
            0 <= i < j < self.characters@.len() ==> !spec_same_key(
                (#[trigger] self.characters@[i]).meta,
                (#[trigger] self.characters@[j]).meta,
            )
    }

    /// An empty game at tick zero of round one.
    pub fn new() -> (r: Game<I>)
        ensures
            r.wf(),
            r.model().tick == 0,
            r.model().round == 1,
            r.model().chars =~= Seq::<CharModel>::empty(),
            r.model().attacks =~= Seq::<Attack>::empty(),
            r.model().round_state is Ongoing,
            r.model().next_attack_id == 0,
    {
        Self {
            tick: Tick(0),
            round: Round(1),
            characters: Vec::new(),
            impls: Vec::new(),
            attacks: Vec::new(),
            round_state: RoundState::Ongoing,
            attack_ids: AttackIds::new(),
        }
    }

    /// Adds a character to the game: a fresh state and an empty intent are
    /// paired with the given adapter. When a character with the same key is
    /// already loaded, the newcomer's instance counter is raised past every
    /// instance of its script id, so keys stay pairwise distinct. Fails
    /// exactly when the game is full or no free instance counter is left;
    /// a failed addition leaves the game unchanged.
    pub fn add_character(&mut self, meta: Meta, implementation: I) -> (r: Result<
        (),
        AddCharacterError,
    >)
        requires
            old(self).wf(),
        ensures
            final(self).wf(),
            final(self).tick == old(self).tick,
            final(self).round == old(self).round,
            final(self).round_state == old(self).round_state,
            final(self).attacks@ == old(self).attacks@,
            final(self).attack_ids == old(self).attack_ids,
            ({
                let chars = old(self).model().chars;
                let clash = spec_find_char(chars, meta) >= 0;
                let inst: int = if clash {
                    spec_max_instance(chars, meta.id) + 1
                } else {
                    meta.instance as int
                };
                &&& (r is Ok <==> old(self).characters@.len() < MAX_CHARACTERS && inst
                    <= u8::MAX)
                &&& (r is Err ==> final(self).characters@ == old(self).characters@
                    && final(self).impls@ == old(self).impls@)
                &&& (r is Ok ==> {
                    &&& final(self).characters@.len() == old(self).characters@.len() + 1
                    &&& final(self).impls@.len() == old(self).impls@.len() + 1
                    &&& (forall|k: int|
                        0 <= k < old(self).characters@.len()
                            ==> #[trigger] final(self).characters@[k] == old(self).characters@[k]
                            && final(self).impls@[k] == old(self).impls@[k])
                    &&& ({
                        let c = final(self).characters@[old(self).characters@.len() as int];
                        &&& c.meta.id == meta.id
                        &&& c.meta.name == meta.name
                        &&& c.meta.color == meta.color
                        &&& c.meta.version == meta.version
                        &&& c.meta.entrypoint == meta.entrypoint
                        &&& c.meta.instance as int == inst
                        &&& c.state.hp == INITIAL_HP
                        &&& c.state.pos == (Point { x: 0, y: 0 })
                        &&& c.state.heading == 0
                        &&& c.state.head_heading == 0
                        &&& c.state.arms_heading == 0
                        &&& c.state.attack_cooldown == 0
                        &&& c.state.stats.rounds_won == 0
                    })
                    &&& ({
                        let ch = final(self).impls@[old(self).impls@.len() as int];
                        &&& ch.implementation == implementation
                        &&& ch.intent.distance == 0
                        &&& !ch.intent.attack
                        &&& ch.intent.turn_angle == 0
                        &&& ch.intent.turn_head_angle == 0
                        &&& ch.intent.turn_arms_angle == 0
                        &&& ch.intent.direction == MovementDirection::Forward
                    })
                })
            }),
    {
        let ghost chars0 = self.model().chars;
        if self.characters.len() >= MAX_CHARACTERS {
            return Err(AddCharacterError("the game is full".to_string()));
        }
        proof {
            lemma_find_char(chars0, meta);
        }
        let clash = match self.character_index(&meta) {
            Some(_) => true,
            None => false,
        };
        let mut new_meta = meta;
        if clash {
            let n = self.characters.len();
            let mut mx: u8 = 0;
            let mut j: usize = 0;
            proof {
                assert(chars0.take(0) =~= Seq::<CharModel>::empty());
            }
            while j < n
                invariant
                    n == self.characters@.len(),
                    j <= n,
                    chars0 == self.model().chars,
                    chars0.len() == n,
                    mx as int == spec_max_instance(chars0.take(j as int), new_meta.id),
                decreases n - j,
            {
                proof {
                    lemma_max_instance(chars0.take(j as int), new_meta.id);
                    lemma_max_instance_push(
                        chars0.take(j as int),
                        chars0[j as int],
                        new_meta.id,
                    );
                    assert(chars0.take(j as int + 1) =~= chars0.take(j as int).push(
                        chars0[j as int],
                    ));
                    assert(chars0[j as int].meta == self.characters@[j as int].meta);
                }
                let cm = &self.characters[j];
                if cm.meta.id.0 == new_meta.id.0 && cm.meta.instance > mx {
                    mx = cm.meta.instance;
                }
                j = j + 1;
            }
            proof {
                assert(chars0.take(n as int) =~= chars0);
                lemma_max_instance(chars0, new_meta.id);
            }
            if mx == u8::MAX {
                return Err(AddCharacterError("no free instance counter".to_string()));
            }
            new_meta.instance = mx + 1;
        }
        let ghost added = new_meta;
        self.characters.push(CharacterEntry { meta: new_meta, state: State::new() });
        self.impls.push(Character::new(implementation));
        proof {
            lemma_max_instance(chars0, meta.id);
            assert forall|a: int, b: int|
                0 <= a < b < self.characters@.len() implies !spec_same_key(
                (#[trigger] self.characters@[a]).meta,
                (#[trigger] self.characters@[b]).meta,
            ) by {
                if b == self.characters@.len() - 1 {
                    assert(self.characters@[b].meta == added);
                    assert(self.characters@[a].meta == chars0[a].meta);
                    if spec_find_char(chars0, meta) >= 0 {
                        if chars0[a].meta.id == added.id {
                            assert(chars0[a].meta.instance <= spec_max_instance(
                                chars0,
                                meta.id,
                            ));
                        }
                    } else {
                        assert(!spec_same_key(chars0[a].meta, meta));
                    }
                } else {
                    assert(self.characters@[a].meta == chars0[a].meta);
                    assert(self.characters@[b].meta == chars0[b].meta);
                }
            }
            assert(self.characters@[chars0.len() as int].meta == added);
        }
        Ok(())
    }

    /// Index of the character with `meta`'s key, if it is part of this game.
    pub fn character_index(&self, meta: &Meta) -> (r: Option<usize>)
        ensures
            ({
                let f = spec_find_char(self.model().chars, *meta);
                match r {
                    Some(i) => f == i,
                    None => f == -1,
                }
            }),
    {
        proof {
            lemma_find_char(self.model().chars, *meta);
        }
        let n = self.characters.len();
        let mut i: usize = 0;
        while i < n
            invariant
                n == self.characters@.len(),
                i <= n,
                forall|j: int|
                    0 <= j < i ==> !spec_same_key(
                        (#[trigger] self.characters@[j]).meta,
                        *meta,
                    ),
            decreases n - i,
        {
            if self.characters[i].meta.same_character(meta) {
                proof {
                    let f = spec_find_char(self.model().chars, *meta);
                    lemma_find_char(self.model().chars, *meta);
                    assert(spec_same_key(self.model().chars[i as int].meta, *meta));
                    if f < i as int {
                        assert(spec_same_key(self.model().chars[f].meta, *meta));
                        assert(self.model().chars[f].meta == self.characters@[f].meta);
                    }
                    if f > i as int {
                        assert(!spec_same_key(self.model().chars[i as int].meta, *meta));
                    }
                }
                return Some(i);
            }
            i = i + 1;
        }
        proof {
            let f = spec_find_char(self.model().chars, *meta);
            lemma_find_char(self.model().chars, *meta);
            if f >= 0 {
                assert(spec_same_key(self.model().chars[f].meta, *meta));
                assert(self.model().chars[f].meta == self.characters@[f].meta);
            }
        }
        None
    }

    /// Index of the projectile with identifier `id`, if it is in flight.
    pub fn attack_index(&self, id: &AttackId) -> (r: Option<usize>)
        ensures
            ({
                let f = spec_find_attack(self.attacks@, *id);
                match r {
                    Some(i) => f == i,
                    None => f == -1,
                }
            }),
    {
        proof {
            lemma_find_attack(self.attacks@, *id);
        }
        let n = self.attacks.len();
        let mut i: usize = 0;
        while i < n
            invariant
                n == self.attacks@.len(),
                i <= n,
                forall|j: int| 0 <= j < i ==> (#[trigger] self.attacks@[j]).id != *id,
            decreases n - i,
        {
            if self.attacks[i].id.0 == id.0 {
                proof {
                    let f = spec_find_attack(self.attacks@, *id);
                    lemma_find_attack(self.attacks@, *id);
                }
                return Some(i);
            }
            i = i + 1;
        }
        None
    }

    /// The indices of the characters that are still alive, in ascending
    /// order; a character leaves this list the moment its hit points reach
    /// zero.
    pub fn living_characters(&self) -> (r: Vec<usize>)
        ensures
            forall|k: int|
                0 <= k < r@.len() ==> #[trigger] r@[k] < self.model().chars.len() && spec_alive(
                    self.model().chars[r@[k] as int],
                ),
            forall|i: int|
                0 <= i < self.model().chars.len() && spec_alive(#[trigger] self.model().chars[i])
                    ==> r@.contains(i as usize),
            forall|k1: int, k2: int| 0 <= k1 < k2 < r@.len() ==> r@[k1] < r@[k2],
    {
        let n = self.characters.len();
        let mut r: Vec<usize> = Vec::new();
        let mut i: usize = 0;
        proof {
            assert(self.model().chars.len() == self.characters@.len());
        }
        while i < n
            invariant
                n == self.characters@.len(),
                i <= n,
                forall|k: int|
                    0 <= k < r@.len() ==> #[trigger] r@[k] < i && self.characters@[r@[k] as int].state.hp
                        > 0,
                forall|j: int|
                    0 <= j < i && (#[trigger] self.characters@[j]).state.hp > 0 ==> r@.contains(
                        j as usize,
                    ),
                forall|k1: int, k2: int| 0 <= k1 < k2 < r@.len() ==> r@[k1] < r@[k2],
            decreases n - i,
        {
            if self.characters[i].state.hp > 0 {
                let ghost r0 = r@;
                r.push(i);
                proof {
                    assert(r@ =~= r0.push(i));
                    assert(r@[r0.len() as int] == i);
                    assert(r@.contains(i));
                    assert forall|u: usize| r0.contains(u) implies r@.contains(u) by {
                        let k = choose|k: int| 0 <= k < r0.len() && r0[k] == u;
                        assert(r@[k] == u);
                        assert(r@.contains(u));
                    }
                    assert forall|k: int| 0 <= k < r@.len() implies #[trigger] r@[k] < i + 1
                        && self.characters@[r@[k] as int].state.hp > 0 by {
                        if k < r0.len() {
                            assert(r@[k] == r0[k]);
                        } else {
                            assert(r@[k] == i);
                        }
                    }
                    assert forall|k1: int, k2: int|
                        0 <= k1 < k2 < r@.len() implies r@[k1] < r@[k2] by {
                        if k2 < r0.len() {
                            assert(r@[k1] == r0[k1] && r@[k2] == r0[k2]);
                        } else {
                            assert(r@[k2] == i);
                            assert(r@[k1] == r0[k1] && r0[k1] < i);
                        }
                    }
                }
            }
            i = i + 1;
        }
        proof {
            assert forall|k: int| 0 <= k < r@.len() implies #[trigger] r@[k]
                < self.model().chars.len() && spec_alive(self.model().chars[r@[k] as int]) by {
                assert(r@[k] < n);
                assert(self.model().chars[r@[k] as int].state == self.characters@[r@[k] as int].state);
            }
            assert forall|j: int|
                0 <= j < self.model().chars.len() && spec_alive(#[trigger] self.model().chars[j])
                implies r@.contains(j as usize) by {
                assert(self.model().chars[j].state == self.characters@[j].state);
            }
        }
        r
    }
}


/// The magnitude of an integer.
pub open spec fn spec_abs(x: int) -> int {
    if x < 0 {
        -x
    } else {
        x
    }
}

/// A head or arms angle limited to the angle of action.
pub open spec fn spec_clamp_turn_angle(a: int) -> int {
    spec_clamp(a, -(ANGLE_OF_ACTION as int), ANGLE_OF_ACTION as int)
}

/// Limits a head or arms angle to the angle of action.
pub fn clamp_turn_angle(angle: i64) -> (r: i64)
    ensures
        r == spec_clamp_turn_angle(angle as int),
{
    crate::math_utils::clamp(angle, -ANGLE_OF_ACTION, ANGLE_OF_ACTION)
}

/// What remains of a requested turn after a delta of it was performed this
/// tick: requests already below the per-tick rate are cleared outright (so
/// tiny residuals cannot linger forever), larger ones carry the unturned
/// remainder over to the next tick.
pub open spec fn spec_turn_residual(intended: int, delta: int, rate: int) -> int {
    spec_clamp(
        if spec_abs(intended) < rate {
            0
        } else {
            intended - delta
        },
        -(INTENT_LIMIT as int),
        INTENT_LIMIT as int,
    )
}

/// How one event transforms the game: the single definition of the
/// event-sourcing semantics, which both live advancement and replay follow.
/// A malformed event — one naming an unknown character or projectile, or
/// carrying a delta or position the well-formedness bounds refuse — is
/// silently ignored, so a replay consumer folding a foreign log gets the
/// engine's own behaviour on every event the engine could have produced and
/// no state change on any other.
pub open spec fn spec_apply_event(m: GameModel, e: GameEvent) -> GameModel {
    match e {
        GameEvent::Tick(_) => GameModel {
            tick: if m.tick < u32::MAX {
                (m.tick + 1) as u32
            } else {
                m.tick
            },
            chars: m.chars.map(
                |i: int, c: CharModel|
                    CharModel {
                        state: State {
                            attack_cooldown: if c.state.attack_cooldown > 0 {
                                (c.state.attack_cooldown - 1) as u8
                            } else {
                                0
                            },
                            ..c.state
                        },
                        ..c
                    },
            ),
            ..m
        },
        GameEvent::RoundStarted(_, _) => m,
        GameEvent::RoundEnded(opt) => match opt {
            Some(w) => {
                let f = spec_find_char(m.chars, w);
                if f >= 0 && m.chars[f].state.stats.rounds_won < u32::MAX {
                    GameModel {
                        round_state: RoundState::Won(w),
                        chars: m.chars.update(
                            f,
                            CharModel {
                                state: State {
                                    stats: Stats {
                                        rounds_won: (m.chars[f].state.stats.rounds_won + 1) as u32,
                                    },
                                    ..m.chars[f].state
                                },
                                ..m.chars[f]
                            },
                        ),
                        ..m
                    }
                } else {
                    GameModel { round_state: RoundState::Won(w), ..m }
                }
            },
            None => GameModel { round_state: RoundState::Draw, ..m },
        },
        GameEvent::CharacterPositionUpdated(id, d) => {
            let f = spec_find_char(m.chars, id);
            if f >= 0 && -COORD_LIMIT <= d.value.x <= COORD_LIMIT && -COORD_LIMIT <= d.value.y
                <= COORD_LIMIT && 0 <= m.chars[f].state.pos.x + d.value.x <= WIDTH && 0 <= m.chars[
                f
            ].state.pos.y + d.value.y <= HEIGHT {
                let c = m.chars[f];
                let traveled = spec_dist(d.value, Point { x: 0, y: 0 });
                let remaining = if c.intent.distance - traveled >= 0 {
                    c.intent.distance - traveled
                } else {
                    0
                };
                GameModel {
                    chars: m.chars.update(
                        f,
                        CharModel {
                            state: State {
                                pos: Point {
                                    x: (c.state.pos.x + d.value.x) as i64,
                                    y: (c.state.pos.y + d.value.y) as i64,
                                },
                                ..c.state
                            },
                            intent: Intent { distance: remaining as i64, ..c.intent },
                            ..c
                        },
                    ),
                    ..m
                }
            } else {
                m
            }
        },
        GameEvent::CharacterTurned(id, delta) => {
            let f = spec_find_char(m.chars, id);
            if f >= 0 && -TWO_PI <= delta <= TWO_PI {
                let c = m.chars[f];
                GameModel {
                    chars: m.chars.update(
                        f,
                        CharModel {
                            state: State {
                                heading: spec_normalize_absolute_angle(
                                    c.state.heading + delta,
                                ) as i64,
                                ..c.state
                            },
                            intent: Intent {
                                turn_angle: spec_turn_residual(
                                    c.intent.turn_angle as int,
                                    delta as int,
                                    MAX_TURN_RATE as int,
                                ) as i64,
                                ..c.intent
                            },
                            ..c
                        },
                    ),
                    ..m
                }
            } else {
                m
            }
        },
        GameEvent::CharacterHeadTurned(id, delta) => {
            let f = spec_find_char(m.chars, id);
            if f >= 0 && -TWO_PI <= delta <= TWO_PI && -ANGLE_OF_ACTION <= m.chars[
                f
            ].state.head_heading + delta <= ANGLE_OF_ACTION {
                let c = m.chars[f];
                GameModel {
                    chars: m.chars.update(
                        f,
                        CharModel {
                            state: State {
                                head_heading: (c.state.head_heading + delta) as i64,
                                ..c.state
                            },
                            intent: Intent {
                                turn_head_angle: spec_turn_residual(
                                    c.intent.turn_head_angle as int,
                                    delta as int,
                                    MAX_HEAD_TURN_RATE as int,
                                ) as i64,
                                ..c.intent
                            },
                            ..c
                        },
                    ),
                    ..m
                }
            } else {
                m
            }
        },
        GameEvent::CharacterArmsTurned(id, delta) => {
            let f = spec_find_char(m.chars, id);
            if f >= 0 && -TWO_PI <= delta <= TWO_PI {
                let c = m.chars[f];
                GameModel {
                    chars: m.chars.update(
                        f,
                        CharModel {
                            state: State {
                                arms_heading: spec_clamp_turn_angle(
                                    c.state.arms_heading + delta,
                                ) as i64,
                                ..c.state
                            },
                            intent: Intent {
                                turn_arms_angle: spec_turn_residual(
                                    c.intent.turn_arms_angle as int,
                                    delta as int,
                                    MAX_ARMS_TURN_RATE as int,
                                ) as i64,
                                ..c.intent
                            },
                            ..c
                        },
                    ),
                    ..m
                }
            } else {
                m
            }
        },
        GameEvent::Hit(aid, _owner, victim, _p) => {
            let fa = spec_find_attack(m.attacks, aid);
            let m1 = if fa >= 0 {
                GameModel { attacks: m.attacks.remove(fa), ..m }
            } else {
                m
            };
            let f = spec_find_char(m1.chars, victim);
            if f >= 0 && m1.chars[f].state.hp > 0 {
                GameModel {
                    chars: m1.chars.update(
                        f,
                        CharModel {
                            state: State {
                                hp: if m1.chars[f].state.hp - ATTACK_DAMAGE >= 0 {
                                    (m1.chars[f].state.hp - ATTACK_DAMAGE) as i64
                                } else {
                                    0
                                },
                                ..m1.chars[f].state
                            },
                            ..m1.chars[f]
                        },
                    ),
                    ..m1
                }
            } else {
                m1
            }
        },
        GameEvent::AttackAdvanced(aid, pos) => {
            let fa = spec_find_attack(m.attacks, aid);
            if fa >= 0 && spec_inside_arena(pos) {
                GameModel {
                    attacks: m.attacks.update(fa, Attack { pos, ..m.attacks[fa] }),
                    ..m
                }
            } else {
                m
            }
        },
        GameEvent::AttackMissed(aid) => {
            let fa = spec_find_attack(m.attacks, aid);
            if fa >= 0 {
                GameModel { attacks: m.attacks.remove(fa), ..m }
            } else {
                m
            }
        },
        GameEvent::AttackCreated(owner, a) => {
            let f = spec_find_char(m.chars, owner);
            let m1 = if m.attacks.len() < MAX_ATTACKS && spec_attack_wf(a) {
                GameModel { attacks: m.attacks.push(a), ..m }
            } else {
                m
            };
            if f >= 0 {
                GameModel {
                    chars: m1.chars.update(
                        f,
                        CharModel {
                            state: State { attack_cooldown: ATTACK_COOLDOWN, ..m1.chars[f].state },
                            intent: Intent { attack: false, ..m1.chars[f].intent },
                            ..m1.chars[f]
                        },
                    ),
                    ..m1
                }
            } else {
                m1
            }
        },
        GameEvent::CharacterDied(_) => m,
    }
}

/// All character states and intents of a model are well-formed.
pub open spec fn spec_chars_wf(m: GameModel) -> bool {
    forall|i: int|
        0 <= i < m.chars.len() ==> (#[trigger] m.chars[i]).state.wf() && m.chars[i].intent.wf()
}

/// All projectiles of a list are well-formed.
pub open spec fn spec_attacks_wf(attacks: Seq<Attack>) -> bool {
    forall|i: int| 0 <= i < attacks.len() ==> spec_attack_wf(#[trigger] attacks[i])
}

/// Removing one projectile keeps a well-formed list well-formed.
pub proof fn lemma_attacks_wf_remove(attacks: Seq<Attack>, k: int)
    requires
        spec_attacks_wf(attacks),
        0 <= k < attacks.len(),
    ensures
        spec_attacks_wf(attacks.remove(k)),
{
    assert forall|i: int| 0 <= i < attacks.remove(k).len() implies spec_attack_wf(
        #[trigger] attacks.remove(k)[i],
    ) by {
        if i < k {
            assert(attacks.remove(k)[i] == attacks[i]);
        } else {
            assert(attacks.remove(k)[i] == attacks[i + 1]);
        }
    }
}

/// The state after applying a whole batch of events in order.
pub open spec fn spec_apply_events(events: Seq<GameEvent>, m: GameModel) -> GameModel
    decreases events.len(),
{
    if events.len() == 0 {
        m
    } else {
        spec_apply_events(events.drop_first(), spec_apply_event(m, events[0]))
    }
}

/// No event ever changes the projectile-identifier counter or the round
/// number: both are advanced by the game loop itself, never by replay.
pub proof fn lemma_apply_events_keeps_ids(events: Seq<GameEvent>, m: GameModel)
    ensures
        spec_apply_events(events, m).next_attack_id == m.next_attack_id,
        spec_apply_events(events, m).round == m.round,
    decreases events.len(),
{
    if events.len() > 0 {
        lemma_apply_events_keeps_ids(events.drop_first(), spec_apply_event(m, events[0]));
    }
}

/// Applying `s` and then one more event is applying `s.push(e)`.
pub proof fn lemma_apply_events_snoc(s: Seq<GameEvent>, e: GameEvent, m: GameModel)
    ensures
        spec_apply_events(s.push(e), m) == spec_apply_event(spec_apply_events(s, m), e),
    decreases s.len(),
{
    if s.len() == 0 {
        assert(s.push(e)[0] == e);
        assert(s.push(e).drop_first() =~= Seq::<GameEvent>::empty());
        assert(spec_apply_events(s.push(e), m) == spec_apply_events(
            Seq::<GameEvent>::empty(),
            spec_apply_event(m, e),
        ));
    } else {
        assert(s.push(e)[0] == s[0]);
        assert(s.push(e).drop_first() =~= s.drop_first().push(e));
        lemma_apply_events_snoc(s.drop_first(), e, spec_apply_event(m, s[0]));
    }
}

/// One applicable event keeps every character state, intent and projectile
/// well-formed, and never changes the number or the identities of the
/// characters.
pub proof fn lemma_apply_event_wf(m: GameModel, e: GameEvent)
    requires
        spec_chars_wf(m),
        spec_attacks_wf(m.attacks),
    ensures
        spec_chars_wf(spec_apply_event(m, e)),
        spec_attacks_wf(spec_apply_event(m, e).attacks),
        m.attacks.len() <= MAX_ATTACKS ==> spec_apply_event(m, e).attacks.len() <= MAX_ATTACKS,
        spec_apply_event(m, e).chars.len() == m.chars.len(),
        forall|i: int|
            0 <= i < m.chars.len() ==> (#[trigger] spec_apply_event(m, e).chars[i]).meta == m.chars[
                i
            ].meta,
{
    let m2 = spec_apply_event(m, e);
    match e {
        GameEvent::Hit(aid, _owner, _victim, _p) => {
            let fa = spec_find_attack(m.attacks, aid);
            lemma_find_attack(m.attacks, aid);
            if fa >= 0 {
                lemma_attacks_wf_remove(m.attacks, fa);
            }
        },
        GameEvent::AttackMissed(aid) => {
            let fa = spec_find_attack(m.attacks, aid);
            lemma_find_attack(m.attacks, aid);
            if fa >= 0 {
                lemma_attacks_wf_remove(m.attacks, fa);
            }
        },
        GameEvent::AttackAdvanced(aid, pos) => {
            let fa = spec_find_attack(m.attacks, aid);
            lemma_find_attack(m.attacks, aid);
            if fa >= 0 && spec_inside_arena(pos) {
                assert forall|i: int| 0 <= i < m2.attacks.len() implies spec_attack_wf(
                    #[trigger] m2.attacks[i],
                ) by {
                    if i != fa {
                        assert(m2.attacks[i] == m.attacks[i]);
                    }
                }
            }
        },
        GameEvent::AttackCreated(_owner, a) => {
            if m.attacks.len() < MAX_ATTACKS && spec_attack_wf(a) {
                assert forall|i: int| 0 <= i < m2.attacks.len() implies spec_attack_wf(
                    #[trigger] m2.attacks[i],
                ) by {
                    if i < m.attacks.len() {
                        assert(m2.attacks[i] == m.attacks[i]);
                    }
                }
            }
        },
        _ => {
        },
    }
    match e {
        GameEvent::Tick(_) => {
            assert forall|i: int| 0 <= i < m2.chars.len() implies (#[trigger] m2.chars[i]).state.wf()
                && m2.chars[i].intent.wf() && m2.chars[i].meta == m.chars[i].meta by {
                assert(m.chars[i].state.wf());
            }
        },
        GameEvent::RoundStarted(_, _) => {
        },
        GameEvent::RoundEnded(opt) => {
            if opt is Some {
                let w = opt->0;
                let f = spec_find_char(m.chars, w);
                if f >= 0 {
                    lemma_find_char(m.chars, w);
                    assert forall|i: int| 0 <= i < m2.chars.len() implies (#[trigger] m2.chars[
                        i
                    ]).state.wf() && m2.chars[i].intent.wf() && m2.chars[i].meta == m.chars[
                        i
                    ].meta by {
                        assert(m.chars[i].state.wf());
                        if i != f {
                            assert(m2.chars[i] == m.chars[i]);
                        }
                    }
                }
            }
        },
        GameEvent::CharacterPositionUpdated(id, d) => {
            let f = spec_find_char(m.chars, id);
            if f >= 0 {
                lemma_find_char(m.chars, id);
                crate::math_utils::lemma_dist_nonneg(d.value, Point { x: 0, y: 0 });
                assert forall|i: int| 0 <= i < m2.chars.len() implies (#[trigger] m2.chars[
                    i
                ]).state.wf() && m2.chars[i].intent.wf() && m2.chars[i].meta == m.chars[
                    i
                ].meta by {
                    assert(m.chars[i].state.wf());
                    assert(m.chars[i].intent.wf());
                    if i != f {
                        assert(m2.chars[i] == m.chars[i]);
                    }
                }
            }
        },
        GameEvent::CharacterTurned(id, delta) => {
            let f = spec_find_char(m.chars, id);
            if f >= 0 {
                lemma_find_char(m.chars, id);
                crate::math_utils::lemma_normalize_absolute_range(
                    m.chars[f].state.heading + delta,
                );
                assert forall|i: int| 0 <= i < m2.chars.len() implies (#[trigger] m2.chars[
                    i
                ]).state.wf() && m2.chars[i].intent.wf() && m2.chars[i].meta == m.chars[
                    i
                ].meta by {
                    assert(m.chars[i].state.wf());
                    assert(m.chars[i].intent.wf());
                    if i != f {
                        assert(m2.chars[i] == m.chars[i]);
                    }
                }
            }
        },
        GameEvent::CharacterHeadTurned(id, delta) => {
            let f = spec_find_char(m.chars, id);
            if f >= 0 {
                lemma_find_char(m.chars, id);
                assert forall|i: int| 0 <= i < m2.chars.len() implies (#[trigger] m2.chars[
                    i
                ]).state.wf() && m2.chars[i].intent.wf() && m2.chars[i].meta == m.chars[
                    i
                ].meta by {
                    assert(m.chars[i].state.wf());
                    assert(m.chars[i].intent.wf());
                    if i != f {
                        assert(m2.chars[i] == m.chars[i]);
                    }
                }
            }
        },
        GameEvent::CharacterArmsTurned(id, delta) => {
            let f = spec_find_char(m.chars, id);
            if f >= 0 {
                lemma_find_char(m.chars, id);
                assert forall|i: int| 0 <= i < m2.chars.len() implies (#[trigger] m2.chars[
                    i
                ]).state.wf() && m2.chars[i].intent.wf() && m2.chars[i].meta == m.chars[
                    i
                ].meta by {
                    assert(m.chars[i].state.wf());
                    assert(m.chars[i].intent.wf());
                    if i != f {
                        assert(m2.chars[i] == m.chars[i]);
                    }
                }
            }
        },
        GameEvent::Hit(aid, _owner, victim, _p) => {
            let fa = spec_find_attack(m.attacks, aid);
            let m1 = if fa >= 0 {
                GameModel { attacks: m.attacks.remove(fa), ..m }
            } else {
                m
            };
            let f = spec_find_char(m1.chars, victim);
            if f >= 0 {
                lemma_find_char(m1.chars, victim);
                assert forall|i: int| 0 <= i < m2.chars.len() implies (#[trigger] m2.chars[
                    i
                ]).state.wf() && m2.chars[i].intent.wf() && m2.chars[i].meta == m.chars[
                    i
                ].meta by {
                    assert(m.chars[i].state.wf());
                    assert(m.chars[i].intent.wf());
                    if i != f {
                        assert(m2.chars[i] == m.chars[i]);
                    }
                }
            }
        },
        GameEvent::AttackAdvanced(_, _) => {
        },
        GameEvent::AttackMissed(_) => {
        },
        GameEvent::AttackCreated(owner, _a) => {
            let f = spec_find_char(m.chars, owner);
            if f >= 0 {
                lemma_find_char(m.chars, owner);
                assert forall|i: int| 0 <= i < m2.chars.len() implies (#[trigger] m2.chars[
                    i
                ]).state.wf() && m2.chars[i].intent.wf() && m2.chars[i].meta == m.chars[
                    i
                ].meta by {
                    assert(m.chars[i].state.wf());
                    assert(m.chars[i].intent.wf());
                    if i != f {
                        assert(m2.chars[i] == m.chars[i]);
                    }
                }
            }
        },
        GameEvent::CharacterDied(_) => {
        },
    }
}


/// Applies one tick's recorded events, in order, against the authoritative
/// state: the result is exactly the fold of [`spec_apply_event`] over the
/// batch. This advancement step is the only writer of game state.
#[verifier::rlimit(100)]
#[verifier::spinoff_prover]
pub fn advance_game_state<I: Impl>(game: &mut Game<I>, events: &Vec<GameEvent>)
    requires
        old(game).wf(),
    ensures
        final(game).wf(),
        final(game).model() == spec_apply_events(events@, old(game).model()),
        final(game).impls@.len() == old(game).impls@.len(),
        forall|i: int|
            0 <= i < final(game).impls@.len() ==> (#[trigger] final(game).impls@[i]).implementation == old(game).impls@[i].implementation,
{
    let ghost m0 = old(game).model();
    let n = events.len();
    let mut idx: usize = 0;
    proof {
        assert(events@.take(0) =~= Seq::<GameEvent>::empty());
    }
    while idx < n
        invariant
            n == events@.len(),
            idx <= n,
            game.wf(),
            game.model() == spec_apply_events(events@.take(idx as int), m0),
            game.impls@.len() == old(game).impls@.len(),
            forall|i: int|
                0 <= i < game.impls@.len() ==> (#[trigger] game.impls@[i]).implementation == old(game).impls@[i].implementation,
        decreases n - idx,
    {
        let ghost mpre = game.model();
        proof {
            assert(events@.take(idx as int + 1) =~= events@.take(idx as int).push(
                events@[idx as int],
            ));
            lemma_apply_events_snoc(events@.take(idx as int), events@[idx as int], m0);
        }
        let e = &events[idx];
        match e {
            GameEvent::Tick(_) => {
                if game.tick.0 < u32::MAX {
                    game.tick.advance();
                }
                let ghost chars0 = game.characters@;
                let ghost g0 = *game;
                let cn = game.characters.len();
                let mut ci: usize = 0;
                while ci < cn
                    invariant
                        cn == game.characters@.len(),
                        ci <= cn,
                        chars0.len() == cn,
                        game.impls@ == g0.impls@,
                        game.attacks@ == g0.attacks@,
                        game.tick == g0.tick,
                        game.round == g0.round,
                        game.round_state == g0.round_state,
                        game.attack_ids == g0.attack_ids,
                        forall|j: int|
                            ci <= j < cn ==> #[trigger] game.characters@[j] == chars0[j],
                        forall|j: int|
                            0 <= j < ci ==> #[trigger] game.characters@[j] == (CharacterEntry {
                                meta: chars0[j].meta,
                                state: State {
                                    attack_cooldown: if chars0[j].state.attack_cooldown > 0 {
                                        (chars0[j].state.attack_cooldown - 1) as u8
                                    } else {
                                        0
                                    },
                                    ..chars0[j].state
                                },
                            }),
                    decreases cn - ci,
                {
                    let cd = game.characters[ci].state.attack_cooldown;
                    if cd > 0 {
                        game.characters[ci].state.attack_cooldown = cd - 1;
                    }
                    ci = ci + 1;
                }
                proof {
                    assert forall|j: int| 0 <= j < cn implies game.model().chars[j]
                        == spec_apply_event(mpre, *e).chars[j] by {
                        assert(mpre.chars[j].state == chars0[j].state);
                        assert(mpre.chars[j].meta == chars0[j].meta);
                        assert(mpre.chars[j].intent == game.impls@[j].intent);
                        assert(game.characters@[j] == (CharacterEntry {
                            meta: chars0[j].meta,
                            state: State {
                                attack_cooldown: if chars0[j].state.attack_cooldown > 0 {
                                    (chars0[j].state.attack_cooldown - 1) as u8
                                } else {
                                    0
                                },
                                ..chars0[j].state
                            },
                        }));
                    }
                    assert(game.model().chars =~= spec_apply_event(mpre, *e).chars);
                    assert(game.model() =~= spec_apply_event(mpre, *e));
                }
            },
            GameEvent::RoundStarted(_, _) => {
                proof {
                    assert(game.model() =~= spec_apply_event(mpre, *e));
                }
            },
            GameEvent::RoundEnded(opt) => {
                match opt {
                    Some(w) => {
                        proof {
                            lemma_find_char(mpre.chars, *w);
                        }
                        game.round_state = RoundState::Won(w.clone());
                        match game.character_index(w) {
                            Some(ci) => {
                                let rw = game.characters[ci].state.stats.rounds_won;
                                if rw < u32::MAX {
                                    game.characters[ci].state.stats.rounds_won = rw + 1;
                                }
                                proof {
                                    assert(game.model().chars =~= spec_apply_event(mpre, *e).chars);
                                    assert(game.model() =~= spec_apply_event(mpre, *e));
                                }
                            },
                            None => {
                                proof {
                                    assert(game.model() =~= spec_apply_event(mpre, *e));
                                }
                            },
                        }
                    },
                    None => {
                        game.round_state = RoundState::Draw;
                        proof {
                            assert(game.model() =~= spec_apply_event(mpre, *e));
                        }
                    },
                }
            },
            GameEvent::CharacterPositionUpdated(meta, d) => {
                match game.character_index(meta) {
                    Some(ci) => {
                        proof {
                            lemma_find_char(mpre.chars, *meta);
                            crate::math_utils::lemma_dist_nonneg(d.value, Point { x: 0, y: 0 });
                        }
                        let px = game.characters[ci].state.pos.x;
                        let py = game.characters[ci].state.pos.y;
                        if -COORD_LIMIT <= d.value.x && d.value.x <= COORD_LIMIT && -COORD_LIMIT
                            <= d.value.y && d.value.y <= COORD_LIMIT && 0 <= px + d.value.x && px
                            + d.value.x <= WIDTH && 0 <= py + d.value.y && py + d.value.y
                            <= HEIGHT {
                            game.characters[ci].state.pos.x = px + d.value.x;
                            game.characters[ci].state.pos.y = py + d.value.y;
                            let traveled = d.value.dist(&Point::zero());
                            let dist0 = game.impls[ci].intent.distance;
                            let nd = if dist0 - traveled >= 0 {
                                dist0 - traveled
                            } else {
                                0
                            };
                            game.impls[ci].intent.distance = nd;
                        }
                        proof {
                            assert(game.model().chars =~= spec_apply_event(mpre, *e).chars);
                            assert(game.model() =~= spec_apply_event(mpre, *e));
                        }
                    },
                    None => {
                        proof {
                            assert(game.model() =~= spec_apply_event(mpre, *e));
                        }
                    },
                }
            },
            GameEvent::CharacterTurned(meta, delta) => {
                match game.character_index(meta) {
                    Some(ci) => {
                        proof {
                            lemma_find_char(mpre.chars, *meta);
                        }
                        if -TWO_PI <= *delta && *delta <= TWO_PI {
                            let h = game.characters[ci].state.heading;
                            let nh = normalize_absolute_angle(h + *delta);
                            game.characters[ci].state.heading = nh;
                            let ta = game.impls[ci].intent.turn_angle;
                            let abs_ta = if ta < 0 {
                                -ta
                            } else {
                                ta
                            };
                            let raw = if abs_ta < MAX_TURN_RATE {
                                0
                            } else {
                                ta - *delta
                            };
                            game.impls[ci].intent.turn_angle = crate::math_utils::clamp(
                                raw,
                                -INTENT_LIMIT,
                                INTENT_LIMIT,
                            );
                        }
                        proof {
                            assert(game.model().chars =~= spec_apply_event(mpre, *e).chars);
                            assert(game.model() =~= spec_apply_event(mpre, *e));
                        }
                    },
                    None => {
                        proof {
                            assert(game.model() =~= spec_apply_event(mpre, *e));
                        }
                    },
                }
            },
            GameEvent::CharacterHeadTurned(meta, delta) => {
                match game.character_index(meta) {
                    Some(ci) => {
                        proof {
                            lemma_find_char(mpre.chars, *meta);
                        }
                        let hh = game.characters[ci].state.head_heading;
                        if -TWO_PI <= *delta && *delta <= TWO_PI && -ANGLE_OF_ACTION <= hh
                            + *delta && hh + *delta <= ANGLE_OF_ACTION {
                            game.characters[ci].state.head_heading = hh + *delta;
                            let ta = game.impls[ci].intent.turn_head_angle;
                            let abs_ta = if ta < 0 {
                                -ta
                            } else {
                                ta
                            };
                            let raw = if abs_ta < MAX_HEAD_TURN_RATE {
                                0
                            } else {
                                ta - *delta
                            };
                            game.impls[ci].intent.turn_head_angle = crate::math_utils::clamp(
                                raw,
                                -INTENT_LIMIT,
                                INTENT_LIMIT,
                            );
                        }
                        proof {
                            assert(game.model().chars =~= spec_apply_event(mpre, *e).chars);
                            assert(game.model() =~= spec_apply_event(mpre, *e));
                        }
                    },
                    None => {
                        proof {
                            assert(game.model() =~= spec_apply_event(mpre, *e));
                        }
                    },
                }
            },
            GameEvent::CharacterArmsTurned(meta, delta) => {
                match game.character_index(meta) {
                    Some(ci) => {
                        proof {
                            lemma_find_char(mpre.chars, *meta);
                        }
                        if -TWO_PI <= *delta && *delta <= TWO_PI {
                            let ah = game.characters[ci].state.arms_heading;
                            let na = clamp_turn_angle(ah + *delta);
                            game.characters[ci].state.arms_heading = na;
                            let ta = game.impls[ci].intent.turn_arms_angle;
                            let abs_ta = if ta < 0 {
                                -ta
                            } else {
                                ta
                            };
                            let raw = if abs_ta < MAX_ARMS_TURN_RATE {
                                0
                            } else {
                                ta - *delta
                            };
                            game.impls[ci].intent.turn_arms_angle = crate::math_utils::clamp(
                                raw,
                                -INTENT_LIMIT,
                                INTENT_LIMIT,
                            );
                        }
                        proof {
                            assert(game.model().chars =~= spec_apply_event(mpre, *e).chars);
                            assert(game.model() =~= spec_apply_event(mpre, *e));
                        }
                    },
                    None => {
                        proof {
                            assert(game.model() =~= spec_apply_event(mpre, *e));
                        }
                    },
                }
            },
            GameEvent::Hit(aid, _owner, victim, _p) => {
                match game.attack_index(aid) {
                    Some(ai) => {
                        proof {
                            lemma_find_attack(mpre.attacks, *aid);
                        }
                        let _removed = game.attacks.remove(ai);
                    },
                    None => {
                    },
                }
                proof {
                    assert(game.model().chars =~= mpre.chars);
                }
                match game.character_index(victim) {
                    Some(ci) => {
                        proof {
                            lemma_find_char(mpre.chars, *victim);
                        }
                        let hp = game.characters[ci].state.hp;
                        if hp > 0 {
                            game.characters[ci].state.hp = if hp - ATTACK_DAMAGE >= 0 {
                                hp - ATTACK_DAMAGE
                            } else {
                                0
                            };
                        }
                        proof {
                            assert(game.model().chars =~= spec_apply_event(mpre, *e).chars);
                            assert(game.model() =~= spec_apply_event(mpre, *e));
                        }
                    },
                    None => {
                        proof {
                            assert(game.model() =~= spec_apply_event(mpre, *e));
                        }
                    },
                }
            },
            GameEvent::AttackAdvanced(aid, pos) => {
                match game.attack_index(aid) {
                    Some(ai) => {
                        proof {
                            lemma_find_attack(mpre.attacks, *aid);
                        }
                        if inside_arena(pos) {
                            game.attacks[ai].pos = *pos;
                        }
                        proof {
                            assert(game.model() =~= spec_apply_event(mpre, *e));
                        }
                    },
                    None => {
                        proof {
                            assert(game.model() =~= spec_apply_event(mpre, *e));
                        }
                    },
                }
            },
            GameEvent::AttackMissed(aid) => {
                match game.attack_index(aid) {
                    Some(ai) => {
                        proof {
                            lemma_find_attack(mpre.attacks, *aid);
                        }
                        let _removed = game.attacks.remove(ai);
                        proof {
                            assert(game.model() =~= spec_apply_event(mpre, *e));
                        }
                    },
                    None => {
                        proof {
                            assert(game.model() =~= spec_apply_event(mpre, *e));
                        }
                    },
                }
            },
            GameEvent::AttackCreated(owner, a) => {
                if game.attacks.len() < MAX_ATTACKS && inside_arena(&a.pos) && 0 <= a.heading
                    && a.heading < TWO_PI && 0 <= a.velocity && a.velocity <= ATTACK_VELOCITY {
                    game.attacks.push(a.clone());
                }
                proof {
                    assert(game.model().chars =~= mpre.chars);
                }
                match game.character_index(owner) {
                    Some(ci) => {
                        proof {
                            lemma_find_char(mpre.chars, *owner);
                        }
                        game.characters[ci].state.attack_cooldown = ATTACK_COOLDOWN;
                        game.impls[ci].intent.attack = false;
                        proof {
                            assert(game.model().chars =~= spec_apply_event(mpre, *e).chars);
                            assert(game.model() =~= spec_apply_event(mpre, *e));
                        }
                    },
                    None => {
                        proof {
                            assert(game.model() =~= spec_apply_event(mpre, *e));
                        }
                    },
                }
            },
            GameEvent::CharacterDied(_) => {
                proof {
                    assert(game.model() =~= spec_apply_event(mpre, *e));
                }
            },
        }
        proof {
            assert(game.model() == spec_apply_event(mpre, events@[idx as int]));
            lemma_apply_event_wf(mpre, events@[idx as int]);
            assert(spec_chars_wf(game.model()));
            assert(game.model().chars.len() == mpre.chars.len());
            assert(game.characters@.len() == game.impls@.len());
            assert forall|i: int| 0 <= i < game.attacks@.len() implies spec_attack_wf(
                #[trigger] game.attacks@[i],
            ) by {
                assert(game.model().attacks[i] == game.attacks@[i]);
            }
            assert(game.attacks@.len() <= MAX_ATTACKS);
            assert forall|i: int|
                0 <= i < game.characters@.len() implies (#[trigger] game.characters@[i]).state.wf()
                by {
                assert(game.model().chars[i].state == game.characters@[i].state);
            }
            assert forall|i: int| 0 <= i < game.impls@.len() implies (#[trigger] game.impls@[
                i
            ]).intent.wf() by {
                assert(game.model().chars[i].intent == game.impls@[i].intent);
            }
            assert forall|i: int, j: int|
                0 <= i < j < game.characters@.len() implies !spec_same_key(
                (#[trigger] game.characters@[i]).meta,
                (#[trigger] game.characters@[j]).meta,
            ) by {
                assert(game.model().chars[i].meta == game.characters@[i].meta);
                assert(game.model().chars[j].meta == game.characters@[j].meta);
                assert(game.model().chars[i].meta == mpre.chars[i].meta);
                assert(game.model().chars[j].meta == mpre.chars[j].meta);
            }
        }
        idx = idx + 1;
    }
    proof {
        assert(events@.take(n as int) =~= events@);
    }
}


/// Whether a character may stand at `p`: inside the arena bounds reduced by
/// the character's radius.
pub open spec fn spec_valid_position(p: Point) -> bool {
    CHARACTER_RADIUS <= p.x <= WIDTH - CHARACTER_RADIUS && CHARACTER_RADIUS <= p.y <= HEIGHT
        - CHARACTER_RADIUS
}

/// Whether a character may stand at `p`.
pub fn valid_position(p: &Point) -> (r: bool)
    ensures
        r == spec_valid_position(*p),
{
    p.x >= CHARACTER_RADIUS && p.x <= WIDTH - CHARACTER_RADIUS && p.y >= CHARACTER_RADIUS && p.y
        <= HEIGHT - CHARACTER_RADIUS
}

/// Whether `p` lies inside the arena at all; projectiles leaving it miss.
pub open spec fn spec_inside_arena(p: Point) -> bool {
    0 <= p.x <= WIDTH && 0 <= p.y <= HEIGHT
}

/// Whether `p` lies inside the arena.
pub fn inside_arena(p: &Point) -> (r: bool)
    ensures
        r == spec_inside_arena(*p),
{
    p.x >= 0 && p.x <= WIDTH && p.y >= 0 && p.y <= HEIGHT
}

/// Whether two characters standing at `p` and `q` collide: their distance is
/// at most twice the character radius.
pub open spec fn spec_characters_collide(p: Point, q: Point) -> bool {
    spec_dist_sqr(p, q) <= 4 * (CHARACTER_RADIUS as int) * (CHARACTER_RADIUS as int)
}

/// Whether two characters standing at `p` and `q` collide.
pub fn characters_collide(p: &Point, q: &Point) -> (r: bool)
    requires
        -COORD_LIMIT <= p.x <= COORD_LIMIT,
        -COORD_LIMIT <= p.y <= COORD_LIMIT,
        -COORD_LIMIT <= q.x <= COORD_LIMIT,
        -COORD_LIMIT <= q.y <= COORD_LIMIT,
    ensures
        r == spec_characters_collide(*p, *q),
{
    let sq = p.dist_sqr(q);
    sq <= 4 * (CHARACTER_RADIUS as i128) * (CHARACTER_RADIUS as i128)
}

/// The hit points left after one projectile hit.
pub fn remaining_hp(current_hp: i64) -> (r: i64)
    requires
        i64::MIN + ATTACK_DAMAGE <= current_hp,
    ensures
        r == current_hp - ATTACK_DAMAGE,
{
    current_hp - ATTACK_DAMAGE
}

/// The body-turn delta actually performed this tick for a requested turn:
/// the request limited to the per-tick turn rate.
pub open spec fn spec_body_delta(intended: int) -> int {
    spec_clamp(intended, -(MAX_TURN_RATE as int), MAX_TURN_RATE as int)
}

/// The head-turn delta actually performed this tick: the request limited to
/// the per-tick head turn rate, and further so that the resulting head
/// offset stays within the angle of action.
pub open spec fn spec_head_delta(head_heading: int, intended: int) -> int {
    spec_clamp_turn_angle(
        head_heading + spec_clamp(intended, -(MAX_HEAD_TURN_RATE as int), MAX_HEAD_TURN_RATE as int),
    ) - head_heading
}

/// The arms-turn delta actually performed this tick, limited like the head's
/// but by the arms turn rate.
pub open spec fn spec_arms_delta(arms_heading: int, intended: int) -> int {
    spec_clamp_turn_angle(
        arms_heading + spec_clamp(intended, -(MAX_ARMS_TURN_RATE as int), MAX_ARMS_TURN_RATE as int),
    ) - arms_heading
}

/// The absolute heading offset implied by a relative movement direction.
pub open spec fn spec_dir_heading(d: MovementDirection) -> int {
    match d {
        MovementDirection::Forward => 0,
        MovementDirection::Backward => PI as int,
        MovementDirection::Left => -(HALF_PI as int),
        MovementDirection::Right => HALF_PI as int,
    }
}

/// The displacement a character asks for this tick: its velocity (the
/// remaining distance, at most the maximum velocity) along its effective
/// movement heading.
pub open spec fn spec_move_delta(c: CharModel) -> Point {
    let heading = spec_normalize_absolute_angle(
        c.state.heading + spec_body_delta(c.intent.turn_angle as int),
    );
    let velocity = if c.intent.distance < MAX_VELOCITY {
        c.intent.distance as int
    } else {
        MAX_VELOCITY as int
    };
    let mh = heading + spec_dir_heading(c.intent.direction);
    Point {
        x: spec_scale(spec_sin_fp(mh), velocity) as i64,
        y: (-spec_scale(spec_cos_fp(mh), velocity)) as i64,
    }
}

/// The candidate next position of a character this tick: its requested
/// displacement if that stays on valid ground, else no movement.
pub open spec fn spec_candidate(c: CharModel) -> (Point, Point) {
    let d = spec_move_delta(c);
    let next = Point { x: (c.state.pos.x + d.x) as i64, y: (c.state.pos.y + d.y) as i64 };
    if spec_valid_position(next) {
        (d, next)
    } else {
        (Point { x: 0, y: 0 }, c.state.pos)
    }
}

/// Whether some other living character's candidate position collides with
/// character `i`'s candidate position.
pub open spec fn spec_collides_with_other(chars: Seq<CharModel>, i: int) -> bool {
    exists|j: int|
        0 <= j < chars.len() && j != i && spec_alive(#[trigger] chars[j]) && spec_characters_collide(
            spec_candidate(chars[i]).1,
            spec_candidate(chars[j]).1,
        )
}

/// The movement delta character `i` finally performs this tick: its
/// candidate displacement, suppressed to zero when any pair of candidate
/// positions would collide — both parties stay put.
pub open spec fn spec_final_delta(chars: Seq<CharModel>, i: int) -> Point {
    if spec_collides_with_other(chars, i) {
        Point { x: 0, y: 0 }
    } else {
        spec_candidate(chars[i]).0
    }
}

/// Whether `e` is a position update for the character keyed like `m`.
pub open spec fn spec_pos_update_for(e: GameEvent, m: Meta) -> bool {
    match e {
        GameEvent::CharacterPositionUpdated(id, _) => spec_same_key(id, m),
        _ => false,
    }
}

/// How many position updates for the character keyed like `m` a batch holds.
pub open spec fn spec_count_pos_updates(s: Seq<GameEvent>, m: Meta) -> int
    decreases s.len(),
{
    if s.len() == 0 {
        0
    } else {
        spec_count_pos_updates(s.drop_last(), m) + if spec_pos_update_for(s.last(), m) {
            1int
        } else {
            0int
        }
    }
}

/// Whether `e` is one of the four per-character transition events.
pub open spec fn spec_is_transition_event(e: GameEvent) -> bool {
    e is CharacterTurned || e is CharacterHeadTurned || e is CharacterArmsTurned
        || e is CharacterPositionUpdated
}

/// Whether `e` is a body-turn event for the character keyed like `m`.
pub open spec fn spec_body_turn_for(e: GameEvent, m: Meta) -> bool {
    match e {
        GameEvent::CharacterTurned(id, _) => spec_same_key(id, m),
        _ => false,
    }
}

/// Whether `e` is a head-turn event for the character keyed like `m`.
pub open spec fn spec_head_turn_for(e: GameEvent, m: Meta) -> bool {
    match e {
        GameEvent::CharacterHeadTurned(id, _) => spec_same_key(id, m),
        _ => false,
    }
}

/// Whether `e` is an arms-turn event for the character keyed like `m`.
pub open spec fn spec_arms_turn_for(e: GameEvent, m: Meta) -> bool {
    match e {
        GameEvent::CharacterArmsTurned(id, _) => spec_same_key(id, m),
        _ => false,
    }
}

/// How many body-turn events for the character keyed like `m` a batch holds.
pub open spec fn spec_count_body_turns(s: Seq<GameEvent>, m: Meta) -> int
    decreases s.len(),
{
    if s.len() == 0 {
        0
    } else {
        spec_count_body_turns(s.drop_last(), m) + if spec_body_turn_for(s.last(), m) {
            1int
        } else {
            0int
        }
    }
}

/// How many head-turn events for the character keyed like `m` a batch holds.
pub open spec fn spec_count_head_turns(s: Seq<GameEvent>, m: Meta) -> int
    decreases s.len(),
{
    if s.len() == 0 {
        0
    } else {
        spec_count_head_turns(s.drop_last(), m) + if spec_head_turn_for(s.last(), m) {
            1int
        } else {
            0int
        }
    }
}

/// How many arms-turn events for the character keyed like `m` a batch holds.
pub open spec fn spec_count_arms_turns(s: Seq<GameEvent>, m: Meta) -> int
    decreases s.len(),
{
    if s.len() == 0 {
        0
    } else {
        spec_count_arms_turns(s.drop_last(), m) + if spec_arms_turn_for(s.last(), m) {
            1int
        } else {
            0int
        }
    }
}

/// Appending one event adds its own contribution to each turn count.
pub proof fn lemma_count_turns_push(s: Seq<GameEvent>, e: GameEvent, m: Meta)
    ensures
        spec_count_body_turns(s.push(e), m) == spec_count_body_turns(s, m) + if spec_body_turn_for(
            e,
            m,
        ) {
            1int
        } else {
            0int
        },
        spec_count_head_turns(s.push(e), m) == spec_count_head_turns(s, m) + if spec_head_turn_for(
            e,
            m,
        ) {
            1int
        } else {
            0int
        },
        spec_count_arms_turns(s.push(e), m) == spec_count_arms_turns(s, m) + if spec_arms_turn_for(
            e,
            m,
        ) {
            1int
        } else {
            0int
        },
{
    assert(s.push(e).drop_last() =~= s);
    assert(s.push(e).last() == e);
}



/// Every body/head/arms-turn event in a batch names a living character and
/// carries exactly the delta the clamping rules prescribe for it.
pub open spec fn spec_turn_events_ok(s: Seq<GameEvent>, chars: Seq<CharModel>) -> bool {
    forall|k: int|
        0 <= k < s.len() ==> {
            &&& (#[trigger] s[k] matches GameEvent::CharacterTurned(id, delta) ==> {
                let f = spec_find_char(chars, id);
                f >= 0 && spec_alive(chars[f]) && delta == spec_body_delta(
                    chars[f].intent.turn_angle as int,
                )
            })
            &&& (s[k] matches GameEvent::CharacterHeadTurned(id, delta) ==> {
                let f = spec_find_char(chars, id);
                f >= 0 && spec_alive(chars[f]) && delta == spec_head_delta(
                    chars[f].state.head_heading as int,
                    chars[f].intent.turn_head_angle as int,
                )
            })
            &&& (s[k] matches GameEvent::CharacterArmsTurned(id, delta) ==> {
                let f = spec_find_char(chars, id);
                f >= 0 && spec_alive(chars[f]) && delta == spec_arms_delta(
                    chars[f].state.arms_heading as int,
                    chars[f].intent.turn_arms_angle as int,
                )
            })
            &&& spec_is_transition_event(s[k])
        }
}

/// Every position update in a batch names a living character and carries
/// exactly the suppression-aware final movement delta of that character.
pub open spec fn spec_pos_events_ok(s: Seq<GameEvent>, chars: Seq<CharModel>) -> bool {
    forall|k: int|
        0 <= k < s.len() ==> (#[trigger] s[k] matches GameEvent::CharacterPositionUpdated(id, d)
            ==> {
            let f = spec_find_char(chars, id);
            f >= 0 && spec_alive(chars[f]) && d.value == spec_final_delta(chars, f)
        })
}

/// What the movement/turning stage appends to a batch: only transition
/// events, with exact deltas, and exactly one body-turn, head-turn,
/// arms-turn and position-update event per living character (none for the
/// dead) — the per-tick movement contract.
pub open spec fn spec_transition_batch(s: Seq<GameEvent>, chars: Seq<CharModel>) -> bool {
    &&& spec_turn_events_ok(s, chars)
    &&& spec_pos_events_ok(s, chars)
    &&& forall|i: int|
        0 <= i < chars.len() ==> spec_count_pos_updates(s, (#[trigger] chars[i]).meta) == (if
        spec_alive(chars[i]) {
            1int
        } else {
            0int
        })
    &&& forall|i: int|
        0 <= i < chars.len() ==> spec_count_body_turns(s, (#[trigger] chars[i]).meta) == (if
        spec_alive(chars[i]) {
            1int
        } else {
            0int
        })
    &&& forall|i: int|
        0 <= i < chars.len() ==> spec_count_head_turns(s, (#[trigger] chars[i]).meta) == (if
        spec_alive(chars[i]) {
            1int
        } else {
            0int
        })
    &&& forall|i: int|
        0 <= i < chars.len() ==> spec_count_arms_turns(s, (#[trigger] chars[i]).meta) == (if
        spec_alive(chars[i]) {
            1int
        } else {
            0int
        })
}

/// Character keys are pairwise distinct.
pub open spec fn spec_distinct_keys(chars: Seq<CharModel>) -> bool {
    forall|i: int, j: int|
        0 <= i < j < chars.len() ==> !spec_same_key(
            (#[trigger] chars[i]).meta,
            (#[trigger] chars[j]).meta,
        )
}

/// With pairwise distinct keys, looking a character's own key up finds it.
pub proof fn lemma_find_char_self(chars: Seq<CharModel>, i: int)
    requires
        0 <= i < chars.len(),
        spec_distinct_keys(chars),
    ensures
        spec_find_char(chars, chars[i].meta) == i,
{
    lemma_find_char(chars, chars[i].meta);
    let f = spec_find_char(chars, chars[i].meta);
    assert(spec_same_key(chars[i].meta, chars[i].meta));
    if f == -1 {
        assert(!spec_same_key(chars[i].meta, chars[i].meta));
    }
    if f < i {
        assert(spec_same_key(chars[f].meta, chars[i].meta));
        assert(!spec_same_key(chars[f].meta, chars[i].meta));
    }
    if f > i {
        assert(!spec_same_key(chars[i].meta, chars[i].meta));
    }
}

/// A batch without position updates for `m` counts none.
pub proof fn lemma_count_pos_none(s: Seq<GameEvent>, m: Meta)
    requires
        forall|k: int| 0 <= k < s.len() ==> !spec_pos_update_for(#[trigger] s[k], m),
    ensures
        spec_count_pos_updates(s, m) == 0,
    decreases s.len(),
{
    if s.len() > 0 {
        lemma_count_pos_none(s.drop_last(), m);
    }
}

/// Appending one event to a batch adds its own contribution to the count.
pub proof fn lemma_count_pos_push(s: Seq<GameEvent>, e: GameEvent, m: Meta)
    ensures
        spec_count_pos_updates(s.push(e), m) == spec_count_pos_updates(s, m) + if
        spec_pos_update_for(e, m) {
            1int
        } else {
            0int
        },
{
    assert(s.push(e).drop_last() =~= s);
    assert(s.push(e).last() == e);
}

/// In a strictly increasing sequence each entry is at least its index.
pub proof fn lemma_increasing_entry(s: Seq<usize>, k: int)
    requires
        forall|k1: int, k2: int| 0 <= k1 < k2 < s.len() ==> s[k1] < s[k2],
        0 <= k < s.len(),
    ensures
        s[k] >= k,
    decreases k,
{
    if k > 0 {
        lemma_increasing_entry(s, k - 1);
        assert(s[k - 1] < s[k]);
    }
}

/// A strictly increasing sequence of indices below `n` has at most `n`
/// entries.
pub proof fn lemma_increasing_len(s: Seq<usize>, n: int)
    requires
        0 <= n,
        forall|k1: int, k2: int| 0 <= k1 < k2 < s.len() ==> s[k1] < s[k2],
        forall|k: int| 0 <= k < s.len() ==> s[k] < n,
    ensures
        s.len() <= n,
{
    if s.len() > 0 {
        lemma_increasing_entry(s, s.len() - 1);
        assert(s[s.len() - 1] < n);
        assert(s[s.len() - 1] >= s.len() - 1);
    }
}

/// Records the head-turn event for one character: the requested turn limited
/// by the per-tick head rate and by the angle of action (the delta recorded
/// is exactly [`spec_head_delta`]).
pub fn transition_heads(
    meta: &Meta,
    character_state: &State,
    turn_angle: i64,
    event_manager: &mut EventManager,
)
    requires
        character_state.wf(),
        -INTENT_LIMIT <= turn_angle <= INTENT_LIMIT,
        old(event_manager).current().len() < usize::MAX,
    ensures
        final(event_manager).current() =~= old(event_manager).current().push(
            GameEvent::CharacterHeadTurned(
                *meta,
                spec_head_delta(character_state.head_heading as int, turn_angle as int) as i64,
            ),
        ),
        final(event_manager).history() == old(event_manager).history(),
        final(event_manager).mode == old(event_manager).mode,
        old(event_manager).wf() ==> final(event_manager).wf(),
{
    let delta = clamp(turn_angle, -MAX_HEAD_TURN_RATE, MAX_HEAD_TURN_RATE);
    let current_heading = character_state.head_heading;
    let effective_delta = clamp_turn_angle(current_heading + delta) - current_heading;
    event_manager.record(GameEvent::CharacterHeadTurned(meta.clone(), effective_delta));
}

/// Records the arms-turn event for one character: the requested turn limited
/// by the per-tick arms rate and by the angle of action (the delta recorded
/// is exactly [`spec_arms_delta`]).
pub fn transition_arms(
    meta: &Meta,
    character_state: &State,
    turn_angle: i64,
    event_manager: &mut EventManager,
)
    requires
        character_state.wf(),
        -INTENT_LIMIT <= turn_angle <= INTENT_LIMIT,
        old(event_manager).current().len() < usize::MAX,
    ensures
        final(event_manager).current() =~= old(event_manager).current().push(
            GameEvent::CharacterArmsTurned(
                *meta,
                spec_arms_delta(character_state.arms_heading as int, turn_angle as int) as i64,
            ),
        ),
        final(event_manager).history() == old(event_manager).history(),
        final(event_manager).mode == old(event_manager).mode,
        old(event_manager).wf() ==> final(event_manager).wf(),
{
    let delta = clamp(turn_angle, -MAX_ARMS_TURN_RATE, MAX_ARMS_TURN_RATE);
    let current_heading = character_state.arms_heading;
    let effective_delta = clamp_turn_angle(current_heading + delta) - current_heading;
    event_manager.record(GameEvent::CharacterArmsTurned(meta.clone(), effective_delta));
}


/// Runs the movement and turning stage of one tick. For every living
/// character it records one body-turn, one head-turn and one arms-turn event
/// (each delta exactly as the clamping rules demand), and then exactly one
/// position update per living character — the candidate displacement, or a
/// zero delta when the candidate leaves valid ground or any two candidates
/// collide (both parties of a colliding pair stay put).
pub fn transition_characters<I: Impl>(game: &Game<I>, event_manager: &mut EventManager)
    requires
        game.wf(),
        old(event_manager).current().len() + 4 * game.characters@.len() < usize::MAX,
    ensures
        final(event_manager).history() == old(event_manager).history(),
        final(event_manager).mode == old(event_manager).mode,
        old(event_manager).wf() ==> final(event_manager).wf(),
        final(event_manager).current().len() >= old(event_manager).current().len(),
        final(event_manager).current().len() <= old(event_manager).current().len() + 4
            * game.characters@.len(),
        final(event_manager).current().take(old(event_manager).current().len() as int) == old(
            event_manager,
        ).current(),
        spec_transition_batch(
            final(event_manager).current().skip(old(event_manager).current().len() as int),
            game.model().chars,
        ),
{
    let ghost chars = game.model().chars;
    let ghost n0 = old(event_manager).current().len() as int;
    proof {
        assert(chars.len() == game.characters@.len());
        assert(spec_distinct_keys(chars)) by {
            assert forall|i: int, j: int| 0 <= i < j < chars.len() implies !spec_same_key(
                (#[trigger] chars[i]).meta,
                (#[trigger] chars[j]).meta,
            ) by {
                assert(chars[i].meta == game.characters@[i].meta);
                assert(chars[j].meta == game.characters@[j].meta);
            }
        }
        assert(old(event_manager).current().take(n0) =~= old(event_manager).current());
        assert forall|j: int| 0 <= j < chars.len() implies spec_count_body_turns(
            event_manager.current().skip(n0),
            (#[trigger] chars[j]).meta,
        ) == 0 && spec_count_head_turns(event_manager.current().skip(n0), chars[j].meta) == 0
            && spec_count_arms_turns(event_manager.current().skip(n0), chars[j].meta) == 0 by {
            assert(event_manager.current().skip(n0) =~= Seq::<GameEvent>::empty());
        }
    }
    let n = game.characters.len();
    let mut cands: Vec<(Point, Point)> = Vec::new();
    let mut i: usize = 0;
    while i < n
        invariant
            game.wf(),
            chars == game.model().chars,
            spec_distinct_keys(chars),
            n == game.characters@.len(),
            chars.len() == n,
            i <= n,
            cands@.len() == i,
            forall|j: int| 0 <= j < i ==> #[trigger] cands@[j] == spec_candidate(chars[j]),
            n0 == old(event_manager).current().len(),
            event_manager.current().len() <= n0 + 3 * i,
            event_manager.current().len() >= n0,
            n0 + 4 * (n as int) < usize::MAX,
            event_manager.current().take(n0) == old(event_manager).current(),
            event_manager.history() == old(event_manager).history(),
            event_manager.mode == old(event_manager).mode,
            old(event_manager).wf() ==> event_manager.wf(),
            spec_turn_events_ok(event_manager.current().skip(n0), chars),
            forall|k: int|
                0 <= k < event_manager.current().skip(n0).len() ==> !((
                #[trigger] event_manager.current().skip(n0)[k]) is CharacterPositionUpdated),
            forall|j: int|
                0 <= j < chars.len() ==> spec_count_body_turns(
                    event_manager.current().skip(n0),
                    (#[trigger] chars[j]).meta,
                ) == (if j < i && spec_alive(chars[j]) {
                    1int
                } else {
                    0int
                }),
            forall|j: int|
                0 <= j < chars.len() ==> spec_count_head_turns(
                    event_manager.current().skip(n0),
                    (#[trigger] chars[j]).meta,
                ) == (if j < i && spec_alive(chars[j]) {
                    1int
                } else {
                    0int
                }),
            forall|j: int|
                0 <= j < chars.len() ==> spec_count_arms_turns(
                    event_manager.current().skip(n0),
                    (#[trigger] chars[j]).meta,
                ) == (if j < i && spec_alive(chars[j]) {
                    1int
                } else {
                    0int
                }),
        decreases n - i,
    {
        let entry = &game.characters[i];
        let intent = &game.impls[i].intent;
        proof {
            assert(game.characters@[i as int].state.wf());
            assert(game.impls@[i as int].intent.wf());
        }
        let bd = clamp(intent.turn_angle, -MAX_TURN_RATE, MAX_TURN_RATE);
        let heading = normalize_absolute_angle(entry.state.heading + bd);
        let velocity = if intent.distance < MAX_VELOCITY {
            intent.distance
        } else {
            MAX_VELOCITY
        };
        let dir_heading: i64 = match intent.direction {
            MovementDirection::Forward => 0,
            MovementDirection::Backward => PI,
            MovementDirection::Left => -HALF_PI,
            MovementDirection::Right => HALF_PI,
        };
        let mh = heading + dir_heading;
        let s = sin_fp(mh);
        let c = cos_fp(mh);
        proof {
            crate::math_utils::lemma_scale_bound(spec_sin_fp(mh as int), velocity as int);
            crate::math_utils::lemma_scale_bound(spec_cos_fp(mh as int), velocity as int);
        }
        let dx = scale(s, velocity);
        let dy = -scale(c, velocity);
        let delta = Point { x: dx, y: dy };
        let next = entry.state.pos.add(&delta);
        let cand: (Point, Point) = if valid_position(&next) {
            (delta, next)
        } else {
            (Point { x: 0, y: 0 }, entry.state.pos)
        };
        let ghost ev0 = event_manager.current();
        proof {
            assert(cand == spec_candidate(chars[i as int]));
        }
        cands.push(cand);
        if entry.state.hp > 0 {
            proof {
                assert(event_manager.current().len() <= n0 + 3 * (i as int));
                assert(3 * (i as int) + 3 <= 3 * (n as int));
            }
            event_manager.record(GameEvent::CharacterTurned(entry.meta.clone(), bd));
            transition_heads(&entry.meta, &entry.state, intent.turn_head_angle, event_manager);
            transition_arms(&entry.meta, &entry.state, intent.turn_arms_angle, event_manager);
            proof {
                lemma_find_char_self(chars, i as int);
                assert(event_manager.current().skip(n0) =~= ev0.skip(n0).push(
                    GameEvent::CharacterTurned(chars[i as int].meta, spec_body_delta(
                        chars[i as int].intent.turn_angle as int,
                    ) as i64),
                ).push(
                    GameEvent::CharacterHeadTurned(chars[i as int].meta, spec_head_delta(
                        chars[i as int].state.head_heading as int,
                        chars[i as int].intent.turn_head_angle as int,
                    ) as i64),
                ).push(
                    GameEvent::CharacterArmsTurned(chars[i as int].meta, spec_arms_delta(
                        chars[i as int].state.arms_heading as int,
                        chars[i as int].intent.turn_arms_angle as int,
                    ) as i64),
                ));
                assert(event_manager.current().take(n0) =~= old(event_manager).current());
                let s0 = ev0.skip(n0);
                let e1 = GameEvent::CharacterTurned(
                    chars[i as int].meta,
                    spec_body_delta(chars[i as int].intent.turn_angle as int) as i64,
                );
                let e2 = GameEvent::CharacterHeadTurned(
                    chars[i as int].meta,
                    spec_head_delta(
                        chars[i as int].state.head_heading as int,
                        chars[i as int].intent.turn_head_angle as int,
                    ) as i64,
                );
                let e3 = GameEvent::CharacterArmsTurned(
                    chars[i as int].meta,
                    spec_arms_delta(
                        chars[i as int].state.arms_heading as int,
                        chars[i as int].intent.turn_arms_angle as int,
                    ) as i64,
                );
                assert forall|j: int| 0 <= j < chars.len() implies spec_count_body_turns(
                    event_manager.current().skip(n0),
                    (#[trigger] chars[j]).meta,
                ) == (if j < i + 1 && spec_alive(chars[j]) {
                    1int
                } else {
                    0int
                }) && spec_count_head_turns(event_manager.current().skip(n0), chars[j].meta) == (
                if j < i + 1 && spec_alive(chars[j]) {
                    1int
                } else {
                    0int
                }) && spec_count_arms_turns(event_manager.current().skip(n0), chars[j].meta) == (
                if j < i + 1 && spec_alive(chars[j]) {
                    1int
                } else {
                    0int
                }) by {
                    lemma_count_turns_push(s0, e1, chars[j].meta);
                    lemma_count_turns_push(s0.push(e1), e2, chars[j].meta);
                    lemma_count_turns_push(s0.push(e1).push(e2), e3, chars[j].meta);
                    if j == i as int {
                        assert(spec_alive(chars[j]));
                    } else {
                        assert(!spec_same_key(chars[i as int].meta, chars[j].meta));
                    }
                }
            }
        } else {
            proof {
                assert(!spec_alive(chars[i as int]));
            }
        }
        i = i + 1;
    }
    let living = game.living_characters();
    let ghost turnlen = event_manager.current().len() as int - n0;
    let ln = living.len();
    let mut t: usize = 0;
    proof {
        lemma_increasing_len(living@, chars.len() as int);
        assert forall|j: int| 0 <= j < chars.len() implies spec_count_pos_updates(
            event_manager.current().skip(n0),
            (#[trigger] chars[j]).meta,
        ) == 0 by {
            lemma_count_pos_none(event_manager.current().skip(n0), chars[j].meta);
        }
    }
    while t < ln
        invariant
            game.wf(),
            chars == game.model().chars,
            spec_distinct_keys(chars),
            chars.len() == game.characters@.len(),
            ln == living@.len(),
            t <= ln,
            cands@.len() == chars.len(),
            forall|j: int| 0 <= j < chars.len() ==> #[trigger] cands@[j] == spec_candidate(chars[j]),
            forall|k: int|
                0 <= k < ln ==> #[trigger] living@[k] < chars.len() && spec_alive(
                    chars[living@[k] as int],
                ),
            forall|j: int|
                0 <= j < chars.len() && spec_alive(#[trigger] chars[j]) ==> living@.contains(
                    j as usize,
                ),
            forall|k1: int, k2: int| 0 <= k1 < k2 < ln ==> living@[k1] < living@[k2],
            n0 == old(event_manager).current().len(),
            event_manager.current().len() == n0 + turnlen + t,
            turnlen <= 3 * chars.len(),
            turnlen >= 0,
            ln <= chars.len(),
            n0 + 4 * (chars.len() as int) < usize::MAX,
            event_manager.current().take(n0) == old(event_manager).current(),
            event_manager.history() == old(event_manager).history(),
            event_manager.mode == old(event_manager).mode,
            old(event_manager).wf() ==> event_manager.wf(),
            spec_turn_events_ok(event_manager.current().skip(n0), chars),
            spec_pos_events_ok(event_manager.current().skip(n0), chars),
            forall|j: int|
                0 <= j < chars.len() ==> spec_count_pos_updates(
                    event_manager.current().skip(n0),
                    (#[trigger] chars[j]).meta,
                ) == (if exists|u: int| 0 <= u < t && living@[u] == j {
                    1int
                } else {
                    0int
                }),
            forall|j: int|
                0 <= j < chars.len() ==> spec_count_body_turns(
                    event_manager.current().skip(n0),
                    (#[trigger] chars[j]).meta,
                ) == (if spec_alive(chars[j]) {
                    1int
                } else {
                    0int
                }),
            forall|j: int|
                0 <= j < chars.len() ==> spec_count_head_turns(
                    event_manager.current().skip(n0),
                    (#[trigger] chars[j]).meta,
                ) == (if spec_alive(chars[j]) {
                    1int
                } else {
                    0int
                }),
            forall|j: int|
                0 <= j < chars.len() ==> spec_count_arms_turns(
                    event_manager.current().skip(n0),
                    (#[trigger] chars[j]).meta,
                ) == (if spec_alive(chars[j]) {
                    1int
                } else {
                    0int
                }),
        decreases ln - t,
    {
        let i = living[t];
        let mut collides = false;
        let mut u: usize = 0;
        proof {
            assert(spec_candidate(chars[i as int]).1.x <= WIDTH);
        }
        while u < ln
            invariant
                game.wf(),
                chars == game.model().chars,
                chars.len() == game.characters@.len(),
                ln == living@.len(),
                u <= ln,
                i == living@[t as int],
                t < ln,
                cands@.len() == chars.len(),
                forall|j: int|
                    0 <= j < chars.len() ==> #[trigger] cands@[j] == spec_candidate(chars[j]),
                forall|k: int|
                    0 <= k < ln ==> #[trigger] living@[k] < chars.len() && spec_alive(
                        chars[living@[k] as int],
                    ),
                collides == exists|w: int|
                    0 <= w < u && living@[w] != i && spec_characters_collide(
                        spec_candidate(chars[i as int]).1,
                        spec_candidate(chars[#[trigger] living@[w] as int]).1,
                    ),
            decreases ln - u,
        {
            let j = living[u];
            if j != i {
                let ci = &cands[i];
                let cj = &cands[j];
                proof {
                    assert(cands@[i as int] == spec_candidate(chars[i as int]));
                    assert(cands@[j as int] == spec_candidate(chars[j as int]));
                    assert(chars[i as int].state == game.characters@[i as int].state);
                    assert(chars[j as int].state == game.characters@[j as int].state);
                    assert(game.characters@[i as int].state.wf());
                    assert(game.characters@[j as int].state.wf());
                }
                if characters_collide(&ci.1, &cj.1) {
                    collides = true;
                    proof {
                        assert(living@[u as int] == j);
                    }
                }
            }
            u = u + 1;
        }
        proof {
            if collides {
                assert(spec_collides_with_other(chars, i as int)) by {
                    let w = choose|w: int|
                        0 <= w < ln && living@[w] != i && spec_characters_collide(
                            spec_candidate(chars[i as int]).1,
                            spec_candidate(chars[#[trigger] living@[w] as int]).1,
                        );
                    assert(spec_alive(chars[living@[w] as int]));
                }
            } else {
                if spec_collides_with_other(chars, i as int) {
                    let j = choose|j: int|
                        0 <= j < chars.len() && j != i as int && spec_alive(#[trigger] chars[j])
                            && spec_characters_collide(
                            spec_candidate(chars[i as int]).1,
                            spec_candidate(chars[j]).1,
                        );
                    assert(living@.contains(j as usize));
                    let w = choose|w: int| 0 <= w < living@.len() && living@[w] == j as usize;
                    assert(living@[w] as int == j);
                    assert(living@[w] != i);
                    assert(spec_characters_collide(
                        spec_candidate(chars[i as int]).1,
                        spec_candidate(chars[living@[w] as int]).1,
                    ));
                }
            }
            assert(collides == spec_collides_with_other(chars, i as int));
        }
        let d: Delta = if collides {
            Delta::new(Point { x: 0, y: 0 })
        } else {
            let cd = &cands[i];
            Delta::new(cd.0)
        };
        let ghost ev0 = event_manager.current();
        event_manager.record(
            GameEvent::CharacterPositionUpdated(game.characters[i].meta.clone(), d),
        );
        proof {
            lemma_find_char_self(chars, i as int);
            let e = GameEvent::CharacterPositionUpdated(chars[i as int].meta, d);
            assert(event_manager.current().skip(n0) =~= ev0.skip(n0).push(e));
            assert(d.value == spec_final_delta(chars, i as int));
            assert forall|j: int| 0 <= j < chars.len() implies spec_count_body_turns(
                event_manager.current().skip(n0),
                (#[trigger] chars[j]).meta,
            ) == spec_count_body_turns(ev0.skip(n0), chars[j].meta) && spec_count_head_turns(
                event_manager.current().skip(n0),
                chars[j].meta,
            ) == spec_count_head_turns(ev0.skip(n0), chars[j].meta) && spec_count_arms_turns(
                event_manager.current().skip(n0),
                chars[j].meta,
            ) == spec_count_arms_turns(ev0.skip(n0), chars[j].meta) by {
                lemma_count_turns_push(ev0.skip(n0), e, chars[j].meta);
            }
            assert forall|j: int| 0 <= j < chars.len() implies spec_count_pos_updates(
                event_manager.current().skip(n0),
                (#[trigger] chars[j]).meta,
            ) == (if exists|uu: int| 0 <= uu < t + 1 && living@[uu] == j {
                1int
            } else {
                0int
            }) by {
                lemma_count_pos_push(ev0.skip(n0), e, chars[j].meta);
                if j == i as int {
                    assert(spec_pos_update_for(e, chars[j].meta));
                    assert(!(exists|uu: int| 0 <= uu < t && living@[uu] == j)) by {
                        if exists|uu: int| 0 <= uu < t && living@[uu] == j {
                            let uu = choose|uu: int| 0 <= uu < t && living@[uu] == j;
                            assert(living@[uu] < living@[t as int]);
                        }
                    }
                    assert(living@[t as int] == j);
                } else {
                    assert(!spec_same_key(chars[i as int].meta, chars[j].meta));
                    assert(!spec_pos_update_for(e, chars[j].meta));
                    assert((exists|uu: int| 0 <= uu < t + 1 && living@[uu] == j) == (exists|
                        uu: int,
                    | 0 <= uu < t && living@[uu] == j)) by {
                        if exists|uu: int| 0 <= uu < t + 1 && living@[uu] == j {
                            let uu = choose|uu: int| 0 <= uu < t + 1 && living@[uu] == j;
                            if uu == t {
                                assert(false);
                            }
                        }
                    }
                }
            }
            assert(event_manager.current().take(n0) =~= old(event_manager).current());
        }
        t = t + 1;
    }
    proof {
        let appended = event_manager.current().skip(n0);
        assert forall|j: int| 0 <= j < chars.len() implies spec_count_pos_updates(
            appended,
            (#[trigger] chars[j]).meta,
        ) == (if spec_alive(chars[j]) {
            1int
        } else {
            0int
        }) by {
            if spec_alive(chars[j]) {
                assert(living@.contains(j as usize));
                let u = choose|u: int| 0 <= u < living@.len() && living@[u] == j as usize;
            } else {
                if exists|u: int| 0 <= u < ln && living@[u] == j {
                    let u = choose|u: int| 0 <= u < ln && living@[u] == j;
                    assert(spec_alive(chars[living@[u] as int]));
                }
            }
        }
    }
}


/// How many round-ended events a batch holds.
pub open spec fn spec_count_round_ended(s: Seq<GameEvent>) -> int
    decreases s.len(),
{
    if s.len() == 0 {
        0
    } else {
        spec_count_round_ended(s.drop_last()) + if s.last() is RoundEnded {
            1int
        } else {
            0int
        }
    }
}

/// How many characters of a model are still alive.
pub open spec fn spec_living_count(chars: Seq<CharModel>) -> int
    decreases chars.len(),
{
    if chars.len() == 0 {
        0
    } else {
        spec_living_count(chars.drop_last()) + if spec_alive(chars.last()) {
            1int
        } else {
            0int
        }
    }
}

/// What the round-end check appends to a batch: a drawn round-ended event
/// when nobody is left, a round-ended event naming the sole survivor when
/// exactly one character is left, and nothing otherwise — so a batch holds a
/// round-ended event exactly once per tick in which the round ends.
pub open spec fn spec_round_end_batch(s: Seq<GameEvent>, chars: Seq<CharModel>) -> bool {
    &&& (spec_living_count(chars) == 0 ==> s == seq![GameEvent::RoundEnded(None)])
    &&& (spec_living_count(chars) == 1 ==> exists|i: int|
        0 <= i < chars.len() && spec_alive(#[trigger] chars[i]) && s == seq![
            GameEvent::RoundEnded(Some(chars[i].meta)),
        ])
    &&& (spec_living_count(chars) >= 2 ==> s == Seq::<GameEvent>::empty())
    &&& spec_count_round_ended(s) == (if spec_living_count(chars) <= 1 {
        1int
    } else {
        0int
    })
}

/// Detects the end of a round: with no living character a drawn round-ended
/// event is recorded, with exactly one living character a round-ended event
/// naming that character as the winner; otherwise nothing is recorded.
pub fn check_for_round_end<I: Impl>(game: &Game<I>, event_manager: &mut EventManager)
    requires
        game.wf(),
        old(event_manager).current().len() < usize::MAX,
    ensures
        final(event_manager).history() == old(event_manager).history(),
        final(event_manager).mode == old(event_manager).mode,
        old(event_manager).wf() ==> final(event_manager).wf(),
        final(event_manager).current().take(old(event_manager).current().len() as int) == old(
            event_manager,
        ).current(),
        final(event_manager).current().len() <= old(event_manager).current().len() + 1,
        final(event_manager).current().len() >= old(event_manager).current().len(),
        spec_round_end_batch(
            final(event_manager).current().skip(old(event_manager).current().len() as int),
            game.model().chars,
        ),
{
    let ghost chars = game.model().chars;
    let ghost n0 = old(event_manager).current().len() as int;
    let n = game.characters.len();
    let mut alive_count: usize = 0;
    let mut last_alive: usize = 0;
    let mut i: usize = 0;
    proof {
        assert(chars.take(0) =~= Seq::<CharModel>::empty());
    }
    while i < n
        invariant
            n == game.characters@.len(),
            chars == game.model().chars,
            chars.len() == n,
            i <= n,
            alive_count as int == spec_living_count(chars.take(i as int)),
            alive_count <= i,
            alive_count > 0 ==> last_alive < i && spec_alive(chars[last_alive as int]),
        decreases n - i,
    {
        proof {
            assert(chars.take(i as int + 1).drop_last() =~= chars.take(i as int));
            assert(chars.take(i as int + 1).last() == chars[i as int]);
            assert(chars[i as int].state == game.characters@[i as int].state);
        }
        if game.characters[i].state.hp > 0 {
            alive_count = alive_count + 1;
            last_alive = i;
        }
        i = i + 1;
    }
    proof {
        assert(chars.take(n as int) =~= chars);
    }
    if alive_count == 0 {
        event_manager.record(GameEvent::RoundEnded(None));
        proof {
            let s = event_manager.current().skip(n0);
            assert(s =~= seq![GameEvent::RoundEnded(None)]);
            assert(s.drop_last() =~= Seq::<GameEvent>::empty());
            assert(spec_count_round_ended(s.drop_last()) == 0);
            assert(spec_count_round_ended(s) == 1);
            assert(event_manager.current().take(n0) =~= old(event_manager).current());
            assert(spec_round_end_batch(s, chars));
        }
    } else if alive_count == 1 {
        event_manager.record(
            GameEvent::RoundEnded(Some(game.characters[last_alive].meta.clone())),
        );
        proof {
            let s = event_manager.current().skip(n0);
            assert(s =~= seq![GameEvent::RoundEnded(Some(chars[last_alive as int].meta))]);
            assert(s.drop_last() =~= Seq::<GameEvent>::empty());
            assert(spec_count_round_ended(s.drop_last()) == 0);
            assert(spec_count_round_ended(s) == 1);
            assert(event_manager.current().take(n0) =~= old(event_manager).current());
            assert(spec_alive(chars[last_alive as int]));
            assert(spec_round_end_batch(s, chars));
        }
    } else {
        proof {
            let s = event_manager.current().skip(n0);
            assert(s =~= Seq::<GameEvent>::empty());
            assert(spec_count_round_ended(s) == 0);
            assert(event_manager.current().take(n0) =~= old(event_manager).current());
            assert(spec_round_end_batch(s, chars));
        }
    }
}


/// Applying one event never raises any character's hit points.
pub proof fn lemma_apply_event_hp(m: GameModel, e: GameEvent)
    ensures
        spec_apply_event(m, e).chars.len() == m.chars.len(),
        forall|i: int|
            0 <= i < m.chars.len() ==> (#[trigger] spec_apply_event(m, e).chars[i]).state.hp
                <= m.chars[i].state.hp,
{
    let m2 = spec_apply_event(m, e);
    match e {
        GameEvent::Tick(_) => {
            assert forall|i: int| 0 <= i < m.chars.len() implies (#[trigger] m2.chars[i]).state.hp
                <= m.chars[i].state.hp by {
                assert(m2.chars[i].state.hp == m.chars[i].state.hp);
            }
        },
        GameEvent::RoundEnded(opt) => {
            if opt is Some {
                let f = spec_find_char(m.chars, opt->0);
                lemma_find_char(m.chars, opt->0);
                assert forall|i: int| 0 <= i < m.chars.len() implies (#[trigger] m2.chars[
                    i
                ]).state.hp <= m.chars[i].state.hp by {
                    if i != f {
                        assert(m2.chars[i] == m.chars[i]);
                    }
                }
            }
        },
        GameEvent::CharacterPositionUpdated(id, _) => {
            let f = spec_find_char(m.chars, id);
            lemma_find_char(m.chars, id);
            assert forall|i: int| 0 <= i < m.chars.len() implies (#[trigger] m2.chars[i]).state.hp
                <= m.chars[i].state.hp by {
                if i != f {
                    assert(m2.chars[i] == m.chars[i]);
                }
            }
        },
        GameEvent::CharacterTurned(id, _) => {
            let f = spec_find_char(m.chars, id);
            lemma_find_char(m.chars, id);
            assert forall|i: int| 0 <= i < m.chars.len() implies (#[trigger] m2.chars[i]).state.hp
                <= m.chars[i].state.hp by {
                if i != f {
                    assert(m2.chars[i] == m.chars[i]);
                }
            }
        },
        GameEvent::CharacterHeadTurned(id, _) => {
            let f = spec_find_char(m.chars, id);
            lemma_find_char(m.chars, id);
            assert forall|i: int| 0 <= i < m.chars.len() implies (#[trigger] m2.chars[i]).state.hp
                <= m.chars[i].state.hp by {
                if i != f {
                    assert(m2.chars[i] == m.chars[i]);
                }
            }
        },
        GameEvent::CharacterArmsTurned(id, _) => {
            let f = spec_find_char(m.chars, id);
            lemma_find_char(m.chars, id);
            assert forall|i: int| 0 <= i < m.chars.len() implies (#[trigger] m2.chars[i]).state.hp
                <= m.chars[i].state.hp by {
                if i != f {
                    assert(m2.chars[i] == m.chars[i]);
                }
            }
        },
        GameEvent::Hit(aid, _owner, victim, _p) => {
            let fa = spec_find_attack(m.attacks, aid);
            let m1 = if fa >= 0 {
                GameModel { attacks: m.attacks.remove(fa), ..m }
            } else {
                m
            };
            let f = spec_find_char(m1.chars, victim);
            lemma_find_char(m1.chars, victim);
            lemma_find_attack(m.attacks, aid);
            assert forall|i: int| 0 <= i < m.chars.len() implies (#[trigger] m2.chars[i]).state.hp
                <= m.chars[i].state.hp by {
                if i != f {
                    assert(m2.chars[i] == m.chars[i]);
                }
            }
        },
        GameEvent::AttackCreated(owner, _a) => {
            let f = spec_find_char(m.chars, owner);
            lemma_find_char(m.chars, owner);
            assert forall|i: int| 0 <= i < m.chars.len() implies (#[trigger] m2.chars[i]).state.hp
                <= m.chars[i].state.hp by {
                if i != f {
                    assert(m2.chars[i] == m.chars[i]);
                }
            }
        },
        _ => {
        },
    }
}

/// Outside round resets, hit points are monotonically non-increasing: no
/// batch of events can raise any character's hit points; together with
/// [`Game::living_characters`], a character whose hit points reach zero is
/// excluded from the living from that point on.
pub proof fn lemma_hp_never_increases(events: Seq<GameEvent>, m: GameModel)
    ensures
        spec_apply_events(events, m).chars.len() == m.chars.len(),
        forall|i: int|
            0 <= i < m.chars.len() ==> (#[trigger] spec_apply_events(events, m).chars[
                i
            ]).state.hp <= m.chars[i].state.hp,
    decreases events.len(),
{
    if events.len() > 0 {
        lemma_apply_event_hp(m, events[0]);
        lemma_hp_never_increases(events.drop_first(), spec_apply_event(m, events[0]));
    }
}

/// No event but a round-ended one touches the round state or any win
/// statistics, and no event ever changes the number or the identities of the
/// characters.
pub proof fn lemma_apply_event_stats(m: GameModel, e: GameEvent)
    ensures
        spec_apply_event(m, e).chars.len() == m.chars.len(),
        forall|i: int|
            0 <= i < m.chars.len() ==> (#[trigger] spec_apply_event(m, e).chars[i]).meta == m.chars[
                i
            ].meta,
        !(e is RoundEnded) ==> spec_apply_event(m, e).round_state == m.round_state,
        !(e is RoundEnded) ==> forall|i: int|
            0 <= i < m.chars.len() ==> (#[trigger] spec_apply_event(m, e).chars[i]).state.stats
                == m.chars[i].state.stats,
{
    let m2 = spec_apply_event(m, e);
    match e {
        GameEvent::Tick(_) => {
            assert forall|i: int| 0 <= i < m.chars.len() implies (#[trigger] m2.chars[i]).meta
                == m.chars[i].meta && m2.chars[i].state.stats == m.chars[i].state.stats by {}
        },
        GameEvent::RoundEnded(opt) => {
            if opt is Some {
                let f = spec_find_char(m.chars, opt->0);
                lemma_find_char(m.chars, opt->0);
                if f >= 0 {
                    assert forall|i: int| 0 <= i < m.chars.len() implies (#[trigger] m2.chars[
                        i
                    ]).meta == m.chars[i].meta by {
                        if i != f {
                            assert(m2.chars[i] == m.chars[i]);
                        }
                    }
                }
            }
        },
        GameEvent::CharacterPositionUpdated(id, _) => {
            let f = spec_find_char(m.chars, id);
            lemma_find_char(m.chars, id);
            assert forall|i: int| 0 <= i < m.chars.len() implies (#[trigger] m2.chars[i]).meta
                == m.chars[i].meta && m2.chars[i].state.stats == m.chars[i].state.stats by {
                if i != f {
                    assert(m2.chars[i] == m.chars[i]);
                }
            }
        },
        GameEvent::CharacterTurned(id, _) => {
            let f = spec_find_char(m.chars, id);
            lemma_find_char(m.chars, id);
            assert forall|i: int| 0 <= i < m.chars.len() implies (#[trigger] m2.chars[i]).meta
                == m.chars[i].meta && m2.chars[i].state.stats == m.chars[i].state.stats by {
                if i != f {
                    assert(m2.chars[i] == m.chars[i]);
                }
            }
        },
        GameEvent::CharacterHeadTurned(id, _) => {
            let f = spec_find_char(m.chars, id);
            lemma_find_char(m.chars, id);
            assert forall|i: int| 0 <= i < m.chars.len() implies (#[trigger] m2.chars[i]).meta
                == m.chars[i].meta && m2.chars[i].state.stats == m.chars[i].state.stats by {
                if i != f {
                    assert(m2.chars[i] == m.chars[i]);
                }
            }
        },
        GameEvent::CharacterArmsTurned(id, _) => {
            let f = spec_find_char(m.chars, id);
            lemma_find_char(m.chars, id);
            assert forall|i: int| 0 <= i < m.chars.len() implies (#[trigger] m2.chars[i]).meta
                == m.chars[i].meta && m2.chars[i].state.stats == m.chars[i].state.stats by {
                if i != f {
                    assert(m2.chars[i] == m.chars[i]);
                }
            }
        },
        GameEvent::Hit(aid, _owner, victim, _p) => {
            let fa = spec_find_attack(m.attacks, aid);
            let m1 = if fa >= 0 {
                GameModel { attacks: m.attacks.remove(fa), ..m }
            } else {
                m
            };
            let f = spec_find_char(m1.chars, victim);
            lemma_find_char(m1.chars, victim);
            lemma_find_attack(m.attacks, aid);
            assert forall|i: int| 0 <= i < m.chars.len() implies (#[trigger] m2.chars[i]).meta
                == m.chars[i].meta && m2.chars[i].state.stats == m.chars[i].state.stats by {
                if i != f {
                    assert(m2.chars[i] == m.chars[i]);
                }
            }
        },
        GameEvent::AttackCreated(owner, _a) => {
            let f = spec_find_char(m.chars, owner);
            lemma_find_char(m.chars, owner);
            assert forall|i: int| 0 <= i < m.chars.len() implies (#[trigger] m2.chars[i]).meta
                == m.chars[i].meta && m2.chars[i].state.stats == m.chars[i].state.stats by {
                if i != f {
                    assert(m2.chars[i] == m.chars[i]);
                }
            }
        },
        _ => {
        },
    }
}

/// With equal identities at every index, two character tables agree on every
/// key lookup.
pub proof fn lemma_find_char_metas(a: Seq<CharModel>, b: Seq<CharModel>, m: Meta)
    requires
        a.len() == b.len(),
        forall|i: int| 0 <= i < a.len() ==> (#[trigger] a[i]).meta == b[i].meta,
    ensures
        spec_find_char(a, m) == spec_find_char(b, m),
    decreases a.len(),
{
    if a.len() > 0 {
        assert(a[0].meta == b[0].meta);
        assert forall|i: int| 0 <= i < a.drop_first().len() implies (
        #[trigger] a.drop_first()[i]).meta == b.drop_first()[i].meta by {
            assert(a.drop_first()[i] == a[i + 1]);
            assert(b.drop_first()[i] == b[i + 1]);
        }
        lemma_find_char_metas(a.drop_first(), b.drop_first(), m);
    }
}

/// Folding a batch without round-ended events changes neither the round
/// state nor any win statistics.
pub proof fn lemma_no_round_end_keeps_outcome(events: Seq<GameEvent>, m: GameModel)
    requires
        forall|j: int| 0 <= j < events.len() ==> !((#[trigger] events[j]) is RoundEnded),
    ensures
        spec_apply_events(events, m).round_state == m.round_state,
        spec_apply_events(events, m).chars.len() == m.chars.len(),
        forall|i: int|
            0 <= i < m.chars.len() ==> (#[trigger] spec_apply_events(events, m).chars[i]).meta
                == m.chars[i].meta && spec_apply_events(events, m).chars[i].state.stats == m.chars[
                i
            ].state.stats,
    decreases events.len(),
{
    if events.len() > 0 {
        lemma_apply_event_stats(m, events[0]);
        let m1 = spec_apply_event(m, events[0]);
        assert forall|j: int| 0 <= j < events.drop_first().len() implies !((
        #[trigger] events.drop_first()[j]) is RoundEnded) by {
            assert(events.drop_first()[j] == events[j + 1]);
        }
        lemma_no_round_end_keeps_outcome(events.drop_first(), m1);
    }
}

/// A round's outcome is terminal within its batch: after the batch's last
/// round-ended event, nothing changes the round state, so the fold of the
/// whole batch ends in `Won(w)` when that event names the winner `w`, and in
/// `Draw` when it names nobody.
pub proof fn lemma_round_end_decides(events: Seq<GameEvent>, m: GameModel, k: int)
    requires
        0 <= k < events.len(),
        events[k] is RoundEnded,
        forall|j: int| k < j < events.len() ==> !((#[trigger] events[j]) is RoundEnded),
    ensures
        events[k] matches GameEvent::RoundEnded(opt) ==> spec_apply_events(events, m).round_state
            == (match opt {
            Some(w) => RoundState::Won(w),
            None => RoundState::Draw,
        }),
    decreases events.len(),
{
    let m1 = spec_apply_event(m, events[0]);
    if k == 0 {
        assert forall|j: int| 0 <= j < events.drop_first().len() implies !((
        #[trigger] events.drop_first()[j]) is RoundEnded) by {
            assert(events.drop_first()[j] == events[j + 1]);
        }
        lemma_no_round_end_keeps_outcome(events.drop_first(), m1);
    } else {
        assert forall|j: int| k - 1 < j < events.drop_first().len() implies !((
        #[trigger] events.drop_first()[j]) is RoundEnded) by {
            assert(events.drop_first()[j] == events[j + 1]);
        }
        assert(events.drop_first()[k - 1] == events[k]);
        lemma_round_end_decides(events.drop_first(), m1, k - 1);
    }
}

/// Win statistics persist across rounds and rise only with a win: folding a
/// batch whose only round-ended event names the winner `w` — a character of
/// the game whose counter has head-room — raises exactly `w`'s win count by
/// one and leaves every other character's statistics unchanged.
pub proof fn lemma_winner_stats(events: Seq<GameEvent>, m: GameModel, k: int, w: Meta)
    requires
        0 <= k < events.len(),
        events[k] == GameEvent::RoundEnded(Some(w)),
        forall|j: int|
            0 <= j < events.len() && j != k ==> !((#[trigger] events[j]) is RoundEnded),
        spec_find_char(m.chars, w) >= 0,
        m.chars[spec_find_char(m.chars, w)].state.stats.rounds_won < u32::MAX,
    ensures
        spec_apply_events(events, m).chars.len() == m.chars.len(),
        spec_apply_events(events, m).chars[spec_find_char(m.chars, w)].state.stats.rounds_won
            == m.chars[spec_find_char(m.chars, w)].state.stats.rounds_won + 1,
        forall|i: int|
            0 <= i < m.chars.len() && i != spec_find_char(m.chars, w) ==> (
            #[trigger] spec_apply_events(events, m).chars[i]).state.stats == m.chars[
                i
            ].state.stats,
    decreases events.len(),
{
    let f = spec_find_char(m.chars, w);
    lemma_find_char(m.chars, w);
    lemma_apply_event_stats(m, events[0]);
    let m1 = spec_apply_event(m, events[0]);
    if k == 0 {
        assert(m1.chars[f].state.stats.rounds_won == m.chars[f].state.stats.rounds_won + 1);
        assert forall|i: int| 0 <= i < m.chars.len() && i != f implies (#[trigger] m1.chars[
            i
        ]).state.stats == m.chars[i].state.stats by {
            assert(m1.chars[i] == m.chars[i]);
        }
        assert forall|j: int| 0 <= j < events.drop_first().len() implies !((
        #[trigger] events.drop_first()[j]) is RoundEnded) by {
            assert(events.drop_first()[j] == events[j + 1]);
        }
        lemma_no_round_end_keeps_outcome(events.drop_first(), m1);
    } else {
        lemma_find_char_metas(m.chars, m1.chars, w);
        assert forall|j: int|
            0 <= j < events.drop_first().len() && j != k - 1 implies !((
        #[trigger] events.drop_first()[j]) is RoundEnded) by {
            assert(events.drop_first()[j] == events[j + 1]);
        }
        assert(events.drop_first()[k - 1] == events[k]);
        lemma_winner_stats(events.drop_first(), m1, k - 1, w);
    }
}

/// How many commands equal to `c` a list holds.
pub open spec fn spec_count_cmd(s: Seq<Command>, c: Command) -> int
    decreases s.len(),
{
    if s.len() == 0 {
        0
    } else {
        spec_count_cmd(s.drop_last(), c) + if s.last() == c {
            1int
        } else {
            0int
        }
    }
}

/// The subsequence of commands whose priority index is `p`, in their
/// original relative order.
pub open spec fn spec_cmds_with_index(s: Seq<Command>, p: int) -> Seq<Command>
    decreases s.len(),
{
    if s.len() == 0 {
        Seq::empty()
    } else if spec_command_index(s.last()) == p {
        spec_cmds_with_index(s.drop_last(), p).push(s.last())
    } else {
        spec_cmds_with_index(s.drop_last(), p)
    }
}

/// A priority index no command variant carries selects nothing.
pub proof fn lemma_cmds_with_index_outside(s: Seq<Command>, p: int)
    requires
        p < 0 || p > 4,
    ensures
        spec_cmds_with_index(s, p) =~= Seq::<Command>::empty(),
    decreases s.len(),
{
    if s.len() > 0 {
        lemma_cmds_with_index_outside(s.drop_last(), p);
    }
}

/// Sorts an adapter's commands into their fixed application order: `Move`
/// first, then `Attack`, `Turn`, `TurnHead`, `TurnArms`. The result is a
/// permutation of the input (each command value keeps its multiplicity),
/// ordered by ascending priority index, and the sort is stable: for every
/// priority the commands that carry it keep exactly their original order.
pub fn reduce_commands(commands: &mut Vec<Command>)
    ensures
        final(commands)@.len() == old(commands)@.len(),
        forall|k1: int, k2: int|
            0 <= k1 < k2 < final(commands)@.len() ==> spec_command_index(#[trigger] final(commands)@[k1]) <= spec_command_index(#[trigger] final(commands)@[k2]),
        forall|c: Command|
            spec_count_cmd(final(commands)@, c) == spec_count_cmd(old(commands)@, c),
        forall|p: int|
            spec_cmds_with_index(final(commands)@, p) == spec_cmds_with_index(old(commands)@, p),
{
    let ghost orig = commands@;
    let n = commands.len();
    let mut result: Vec<Command> = Vec::new();
    let mut p: i32 = 0;
    proof {
        assert forall|c: Command| spec_count_cmd(result@, c) == (if spec_command_index(c) < 0 {
            spec_count_cmd(orig, c)
        } else {
            0int
        }) by {
            lemma_count_cmd_empty(result@, c);
        }
    }
    while p <= 4
        invariant
            0 <= p <= 5,
            n == orig.len(),
            commands@ == orig,
            forall|k: int|
                0 <= k < result@.len() ==> spec_command_index(#[trigger] result@[k]) < p,
            forall|k1: int, k2: int|
                0 <= k1 < k2 < result@.len() ==> spec_command_index(#[trigger] result@[k1])
                    <= spec_command_index(#[trigger] result@[k2]),
            forall|c: Command|
                spec_count_cmd(result@, c) == (if spec_command_index(c) < p {
                    spec_count_cmd(orig, c)
                } else {
                    0int
                }),
            forall|q: int|
                0 <= q ==> spec_cmds_with_index(result@, q) == (if q < p {
                    spec_cmds_with_index(orig, q)
                } else {
                    Seq::<Command>::empty()
                }),
        decreases 5 - p,
    {
        let mut j: usize = 0;
        while j < n
            invariant
                0 <= p <= 4,
                n == orig.len(),
                commands@ == orig,
                j <= n,
                forall|k: int|
                    0 <= k < result@.len() ==> spec_command_index(#[trigger] result@[k]) <= p,
                forall|k1: int, k2: int|
                    0 <= k1 < k2 < result@.len() ==> spec_command_index(#[trigger] result@[k1])
                        <= spec_command_index(#[trigger] result@[k2]),
                forall|c: Command|
                    spec_count_cmd(result@, c) == (if spec_command_index(c) < p {
                        spec_count_cmd(orig, c)
                    } else if spec_command_index(c) == p {
                        spec_count_cmd(orig.take(j as int), c)
                    } else {
                        0int
                    }),
                forall|q: int|
                    0 <= q ==> spec_cmds_with_index(result@, q) == (if q < p {
                        spec_cmds_with_index(orig, q)
                    } else if q == p {
                        spec_cmds_with_index(orig.take(j as int), q)
                    } else {
                        Seq::<Command>::empty()
                    }),
            decreases n - j,
        {
            let cmd = commands[j];
            let ghost r0 = result@;
            if cmd.index() == p {
                result.push(cmd);
            }
            proof {
                assert(orig.take(j as int + 1).drop_last() =~= orig.take(j as int));
                assert(orig.take(j as int + 1).last() == orig[j as int]);
                if spec_command_index(orig[j as int]) == p {
                    assert(result@ =~= r0.push(orig[j as int]));
                    assert forall|c: Command| spec_count_cmd(result@, c) == (if spec_command_index(
                        c,
                    ) < p {
                        spec_count_cmd(orig, c)
                    } else if spec_command_index(c) == p {
                        spec_count_cmd(orig.take(j as int + 1), c)
                    } else {
                        0int
                    }) by {
                        assert(result@.drop_last() =~= r0);
                        assert(result@.last() == orig[j as int]);
                    }
                    assert forall|q: int| 0 <= q implies spec_cmds_with_index(result@, q) == (if q
                        < p {
                        spec_cmds_with_index(orig, q)
                    } else if q == p {
                        spec_cmds_with_index(orig.take(j as int + 1), q)
                    } else {
                        Seq::<Command>::empty()
                    }) by {
                        assert(result@.drop_last() =~= r0);
                        assert(result@.last() == orig[j as int]);
                        assert(result@.len() > 0);
                        if q == p {
                            assert(spec_cmds_with_index(result@, q) == spec_cmds_with_index(
                                r0,
                                q,
                            ).push(orig[j as int]));
                            assert(spec_cmds_with_index(orig.take(j as int + 1), q)
                                == spec_cmds_with_index(orig.take(j as int), q).push(
                                orig[j as int],
                            ));
                        } else {
                            assert(spec_cmds_with_index(result@, q) == spec_cmds_with_index(
                                r0,
                                q,
                            ));
                        }
                    }
                } else {
                    assert(spec_cmds_with_index(orig.take(j as int + 1), p as int)
                        == spec_cmds_with_index(orig.take(j as int), p as int));
                }
            }
            j = j + 1;
        }
        proof {
            assert(orig.take(n as int) =~= orig);
        }
        p = p + 1;
    }
    proof {
        assert forall|c: Command| spec_count_cmd(result@, c) == spec_count_cmd(orig, c) by {
            assert(spec_command_index(c) < 5);
        }
        lemma_count_cmd_len(result@, orig);
        assert forall|q: int| spec_cmds_with_index(result@, q) == spec_cmds_with_index(
            orig,
            q,
        ) by {
            if q < 0 || q > 4 {
                lemma_cmds_with_index_outside(result@, q);
                lemma_cmds_with_index_outside(orig, q);
                assert(spec_cmds_with_index(result@, q) =~= spec_cmds_with_index(orig, q));
            }
        }
    }
    *commands = result;
}

/// Counting commands in the empty list gives zero.
pub proof fn lemma_count_cmd_empty(s: Seq<Command>, c: Command)
    requires
        s.len() == 0,
    ensures
        spec_count_cmd(s, c) == 0,
{
}

/// Two command lists that agree on every command's multiplicity have the
/// same length.
pub proof fn lemma_count_cmd_len(a: Seq<Command>, b: Seq<Command>)
    requires
        forall|c: Command| spec_count_cmd(a, c) == spec_count_cmd(b, c),
    ensures
        a.len() == b.len(),
    decreases a.len(),
{
    if a.len() > 0 {
        let c = a.last();
        lemma_count_cmd_remove(a, c);
        lemma_count_cmd_remove(b, c);
        let a2 = a.remove(spec_last_index_cmd(a, c));
        assert(spec_count_cmd(a, c) >= 1);
        let b2 = b.remove(spec_last_index_cmd(b, c));
        assert forall|d: Command| spec_count_cmd(a2, d) == spec_count_cmd(b2, d) by {}
        lemma_count_cmd_len(a2, b2);
    } else {
        if b.len() > 0 {
            let c = b.last();
            lemma_count_cmd_remove(b, c);
        }
    }
}

/// A multiplicity is never negative.
pub proof fn lemma_count_cmd_nonneg(s: Seq<Command>, c: Command)
    ensures
        spec_count_cmd(s, c) >= 0,
    decreases s.len(),
{
    if s.len() > 0 {
        lemma_count_cmd_nonneg(s.drop_last(), c);
    }
}

/// The index of the last occurrence of `c` in `s`.
pub open spec fn spec_last_index_cmd(s: Seq<Command>, c: Command) -> int
    decreases s.len(),
{
    if s.len() == 0 {
        -1
    } else if s.last() == c {
        s.len() - 1
    } else {
        spec_last_index_cmd(s.drop_last(), c)
    }
}

/// Removing the last occurrence of a present command lowers exactly its own
/// multiplicity by one.
pub proof fn lemma_count_cmd_remove(s: Seq<Command>, c: Command)
    requires
        spec_count_cmd(s, c) >= 1 || (s.len() > 0 && s.last() == c),
    ensures
        spec_count_cmd(s, c) >= 1,
        0 <= spec_last_index_cmd(s, c) < s.len(),
        forall|d: Command|
            spec_count_cmd(s.remove(spec_last_index_cmd(s, c)), d) == spec_count_cmd(s, d) - (if d
                == c {
                1int
            } else {
                0int
            }),
    decreases s.len(),
{
    if s.len() > 0 {
        lemma_count_cmd_nonneg(s.drop_last(), c);
        if s.last() == c {
            assert(s.remove(s.len() - 1) =~= s.drop_last());
            assert forall|d: Command|
                spec_count_cmd(s.remove(s.len() - 1), d) == spec_count_cmd(s, d) - (if d == c {
                    1int
                } else {
                    0int
                }) by {}
        } else {
            lemma_count_cmd_remove(s.drop_last(), c);
            let li = spec_last_index_cmd(s.drop_last(), c);
            assert(s.remove(li).drop_last() =~= s.drop_last().remove(li));
            assert(s.remove(li).last() == s.last());
            assert forall|d: Command|
                spec_count_cmd(s.remove(li), d) == spec_count_cmd(s, d) - (if d == c {
                    1int
                } else {
                    0int
                }) by {
                assert(spec_count_cmd(s.remove(li), d) == spec_count_cmd(
                    s.remove(li).drop_last(),
                    d,
                ) + if s.remove(li).last() == d {
                    1int
                } else {
                    0int
                });
            }
        }
    }
}

/// Hands one tick's projection of events to a character's adapter, one
/// event at a time, and gathers every command it answers with; the first
/// adapter failure aborts the dispatch. Whether the dispatch succeeds, and
/// which commands come back, is the adapter's to decide; only a dispatch
/// with no events to hand over is owed an (empty) success.
pub fn dispatch_character_events<I: Impl>(character_events: Vec<Event>, character: &mut I) -> (r:
    Result<Vec<Command>, EventError>)
    ensures
        character_events@.len() == 0 ==> (r matches Ok(cs) && cs@.len() == 0),
{
    let mut commands: Vec<Command> = Vec::new();
    let n = character_events.len();
    let mut i: usize = 0;
    while i < n
        invariant
            n == character_events@.len(),
            i <= n,
            n == 0 ==> commands@.len() == 0,
        decreases n - i,
    {
        let ev = &character_events[i];
        match character.on_event(ev) {
            Ok(mut cs) => {
                commands.append(&mut cs.value);
            },
            Err(e) => {
                return Err(e);
            },
        }
        i = i + 1;
    }
    Ok(commands)
}

/// Whether a character wants to and may spawn a projectile this tick: it is
/// alive, its intent requests an attack, and its cooldown has run out.
pub open spec fn spec_will_attack(c: CharModel) -> bool {
    spec_alive(c) && c.intent.attack && c.state.attack_cooldown == 0
}

/// The projectile a character spawns: at the character's position, along its
/// effective arms heading, with the fixed attack velocity and identifier
/// `id`.
pub open spec fn spec_attack_for(c: CharModel, id: int) -> Attack {
    Attack {
        id: AttackId(id as usize),
        pos: c.state.pos,
        owner: c.meta,
        heading: spec_normalize_absolute_angle(c.state.heading + c.state.arms_heading) as i64,
        velocity: ATTACK_VELOCITY,
    }
}

/// Whether `e` is an attack-created event owned by the character keyed like
/// `m`.
pub open spec fn spec_attack_created_for(e: GameEvent, m: Meta) -> bool {
    match e {
        GameEvent::AttackCreated(owner, _) => spec_same_key(owner, m),
        _ => false,
    }
}

/// How many attack-created events for the character keyed like `m` a batch
/// holds.
pub open spec fn spec_count_attacks_created(s: Seq<GameEvent>, m: Meta) -> int
    decreases s.len(),
{
    if s.len() == 0 {
        0
    } else {
        spec_count_attacks_created(s.drop_last(), m) + if spec_attack_created_for(s.last(), m) {
            1int
        } else {
            0int
        }
    }
}

/// Appending one event adds its own contribution to the created count.
pub proof fn lemma_count_created_push(s: Seq<GameEvent>, e: GameEvent, m: Meta)
    ensures
        spec_count_attacks_created(s.push(e), m) == spec_count_attacks_created(s, m) + if
        spec_attack_created_for(e, m) {
            1int
        } else {
            0int
        },
{
    assert(s.push(e).drop_last() =~= s);
    assert(s.push(e).last() == e);
}

/// The character index an attack-created event names, or `-1` for any other
/// event.
pub open spec fn spec_created_owner_index(e: GameEvent, chars: Seq<CharModel>) -> int {
    match e {
        GameEvent::AttackCreated(owner, _) => spec_find_char(chars, owner),
        _ => -1,
    }
}

/// What the attack-creation stage appends to a batch: one attack-created
/// event per attacking character, in character-table order, each carrying
/// exactly the projectile [`spec_attack_for`] prescribes, with identifiers
/// ascending from `base` in event order; nothing else.
pub open spec fn spec_create_batch(s: Seq<GameEvent>, chars: Seq<CharModel>, base: int) -> bool {
    &&& forall|k: int|
        0 <= k < s.len() ==> (#[trigger] s[k] matches GameEvent::AttackCreated(owner, a) && {
            let f = spec_find_char(chars, owner);
            f >= 0 && spec_will_attack(chars[f]) && owner == chars[f].meta && a == spec_attack_for(
                chars[f],
                base + k,
            )
        })
    &&& forall|k1: int, k2: int|
        0 <= k1 < k2 < s.len() ==> spec_created_owner_index(#[trigger] s[k1], chars)
            < spec_created_owner_index(#[trigger] s[k2], chars)
    &&& forall|i: int|
        0 <= i < chars.len() ==> spec_count_attacks_created(s, (#[trigger] chars[i]).meta) == (if
        spec_will_attack(chars[i]) {
            1int
        } else {
            0int
        })
}

/// Runs the attack-creation stage of one tick: every living character whose
/// intent requests an attack and whose cooldown has run out spawns exactly
/// one projectile, at its position along its effective arms heading, with a
/// fresh, ascending identifier; the stage only records events.
pub fn create_attacks<I: Impl>(game: &Game<I>, ids: &mut AttackIds, event_manager: &mut EventManager)
    requires
        game.wf(),
        old(ids).next + game.characters@.len() <= usize::MAX,
        old(event_manager).current().len() + game.characters@.len() < usize::MAX,
    ensures
        final(event_manager).history() == old(event_manager).history(),
        final(event_manager).mode == old(event_manager).mode,
        old(event_manager).wf() ==> final(event_manager).wf(),
        final(event_manager).current().len() >= old(event_manager).current().len(),
        final(event_manager).current().len() <= old(event_manager).current().len()
            + game.characters@.len(),
        final(event_manager).current().take(old(event_manager).current().len() as int) == old(
            event_manager,
        ).current(),
        spec_create_batch(
            final(event_manager).current().skip(old(event_manager).current().len() as int),
            game.model().chars,
            old(ids).next as int,
        ),
        final(ids).next == old(ids).next + final(event_manager).current().len() - old(
            event_manager,
        ).current().len(),
{
    let ghost chars = game.model().chars;
    let ghost n0 = old(event_manager).current().len() as int;
    let ghost base = old(ids).next as int;
    proof {
        assert(chars.len() == game.characters@.len());
        assert(spec_distinct_keys(chars)) by {
            assert forall|i: int, j: int| 0 <= i < j < chars.len() implies !spec_same_key(
                (#[trigger] chars[i]).meta,
                (#[trigger] chars[j]).meta,
            ) by {
                assert(chars[i].meta == game.characters@[i].meta);
                assert(chars[j].meta == game.characters@[j].meta);
            }
        }
        assert(old(event_manager).current().take(n0) =~= old(event_manager).current());
        assert forall|j: int| 0 <= j < chars.len() implies spec_count_attacks_created(
            event_manager.current().skip(n0),
            (#[trigger] chars[j]).meta,
        ) == 0 by {
            assert(event_manager.current().skip(n0) =~= Seq::<GameEvent>::empty());
        }
    }
    let n = game.characters.len();
    let mut i: usize = 0;
    while i < n
        invariant
            game.wf(),
            chars == game.model().chars,
            spec_distinct_keys(chars),
            n == game.characters@.len(),
            chars.len() == n,
            i <= n,
            base == old(ids).next,
            base + n <= usize::MAX,
            n0 == old(event_manager).current().len(),
            n0 + (n as int) < usize::MAX,
            event_manager.current().len() >= n0,
            event_manager.current().len() <= n0 + i,
            ids.next == base + event_manager.current().len() - n0,
            event_manager.current().take(n0) == old(event_manager).current(),
            event_manager.history() == old(event_manager).history(),
            event_manager.mode == old(event_manager).mode,
            old(event_manager).wf() ==> event_manager.wf(),
            forall|k: int|
                0 <= k < event_manager.current().skip(n0).len() ==> (
                #[trigger] event_manager.current().skip(n0)[k] matches GameEvent::AttackCreated(
                    owner,
                    a,
                ) && {
                    let f = spec_find_char(chars, owner);
                    f >= 0 && f < i && spec_will_attack(chars[f]) && owner == chars[f].meta && a
                        == spec_attack_for(chars[f], base + k)
                }),
            forall|k1: int, k2: int|
                0 <= k1 < k2 < event_manager.current().skip(n0).len()
                    ==> spec_created_owner_index(
                    #[trigger] event_manager.current().skip(n0)[k1],
                    chars,
                ) < spec_created_owner_index(
                    #[trigger] event_manager.current().skip(n0)[k2],
                    chars,
                ),
            forall|j: int|
                0 <= j < chars.len() ==> spec_count_attacks_created(
                    event_manager.current().skip(n0),
                    (#[trigger] chars[j]).meta,
                ) == (if j < i && spec_will_attack(chars[j]) {
                    1int
                } else {
                    0int
                }),
        decreases n - i,
    {
        let entry = &game.characters[i];
        let intent = &game.impls[i].intent;
        proof {
            assert(game.characters@[i as int].state.wf());
        }
        if entry.state.hp > 0 && intent.attack && entry.state.attack_cooldown == 0 {
            let id = ids.next();
            let heading = entry.state.effective_arms_heading();
            let attack = Attack {
                id,
                pos: entry.state.pos,
                owner: entry.meta.clone(),
                heading,
                velocity: ATTACK_VELOCITY,
            };
            let ghost ev0 = event_manager.current();
            let ghost e = GameEvent::AttackCreated(chars[i as int].meta, attack);
            event_manager.record(GameEvent::AttackCreated(entry.meta.clone(), attack.clone()));
            proof {
                lemma_find_char_self(chars, i as int);
                assert(event_manager.current().skip(n0) =~= ev0.skip(n0).push(e));
                assert(attack == spec_attack_for(chars[i as int], base + ev0.skip(n0).len()));
                assert(event_manager.current().take(n0) =~= old(event_manager).current());
                assert forall|j: int| 0 <= j < chars.len() implies spec_count_attacks_created(
                    event_manager.current().skip(n0),
                    (#[trigger] chars[j]).meta,
                ) == (if j < i + 1 && spec_will_attack(chars[j]) {
                    1int
                } else {
                    0int
                }) by {
                    lemma_count_created_push(ev0.skip(n0), e, chars[j].meta);
                    if j != i as int {
                        assert(!spec_same_key(chars[i as int].meta, chars[j].meta));
                    }
                }
            }
        } else {
            proof {
                lemma_find_char_self(chars, i as int);
                assert forall|j: int| 0 <= j < chars.len() implies spec_count_attacks_created(
                    event_manager.current().skip(n0),
                    (#[trigger] chars[j]).meta,
                ) == (if j < i + 1 && spec_will_attack(chars[j]) {
                    1int
                } else {
                    0int
                }) by {
                    if j == i as int {
                        assert(!spec_will_attack(chars[j]));
                    }
                }
            }
        }
        i = i + 1;
    }
}

/// Index of the first living character other than the projectile's owner
/// within hit range of the projectile's position, or `-1`.
pub open spec fn spec_attack_victim(chars: Seq<CharModel>, a: Attack) -> int
    decreases chars.len(),
{
    if chars.len() == 0 {
        -1
    } else if spec_alive(chars[0]) && !spec_same_key(chars[0].meta, a.owner) && spec_dist(
        a.pos,
        chars[0].state.pos,
    ) <= ATTACK_RADIUS + CHARACTER_RADIUS {
        0
    } else {
        let r = spec_attack_victim(chars.drop_first(), a);
        if r < 0 {
            -1
        } else {
            r + 1
        }
    }
}

/// Whether character `i` is a possible victim of projectile `a`.
pub open spec fn spec_is_victim(chars: Seq<CharModel>, a: Attack, i: int) -> bool {
    spec_alive(chars[i]) && !spec_same_key(chars[i].meta, a.owner) && spec_dist(
        a.pos,
        chars[i].state.pos,
    ) <= ATTACK_RADIUS + CHARACTER_RADIUS
}

/// `spec_attack_victim` returns `-1` exactly when no character qualifies,
/// and otherwise the first qualifying index.
pub proof fn lemma_attack_victim(chars: Seq<CharModel>, a: Attack)
    ensures
        -1 <= spec_attack_victim(chars, a) < chars.len(),
        spec_attack_victim(chars, a) >= 0 ==> spec_is_victim(chars, a, spec_attack_victim(chars, a))
            && (forall|j: int|
            0 <= j < spec_attack_victim(chars, a) ==> !spec_is_victim(chars, a, j)),
        spec_attack_victim(chars, a) == -1 ==> forall|j: int|
            0 <= j < chars.len() ==> !spec_is_victim(chars, a, j),
    decreases chars.len(),
{
    if chars.len() > 0 && !(spec_alive(chars[0]) && !spec_same_key(chars[0].meta, a.owner)
        && spec_dist(a.pos, chars[0].state.pos) <= ATTACK_RADIUS + CHARACTER_RADIUS) {
        let rest = chars.drop_first();
        lemma_attack_victim(rest, a);
        let f = spec_attack_victim(chars, a);
        let fr = spec_attack_victim(rest, a);
        if fr < 0 {
            assert forall|j: int| 0 <= j < chars.len() implies !spec_is_victim(chars, a, j) by {
                if j >= 1 {
                    assert(chars[j] == rest[j - 1]);
                    assert(!spec_is_victim(rest, a, j - 1));
                }
            }
        } else {
            assert(chars[f] == rest[fr]);
            assert forall|j: int| 0 <= j < f implies !spec_is_victim(chars, a, j) by {
                if j >= 1 {
                    assert(chars[j] == rest[j - 1]);
                    assert(!spec_is_victim(rest, a, j - 1));
                }
            }
        }
    }
}

/// The events one projectile contributes to the attack-transition stage: a
/// missed event if its next position leaves the arena; else a hit on the
/// first qualifying victim in character-table order (followed by a death
/// event if the hit would exhaust the victim's hit points); else an advance
/// to the next position.
pub open spec fn spec_attack_transition(a: Attack, chars: Seq<CharModel>) -> Seq<GameEvent> {
    let next = spec_line_endpoint(a.pos.x as int, a.pos.y as int, a.velocity as int, a.heading as int);
    if !spec_inside_arena(next) {
        seq![GameEvent::AttackMissed(a.id)]
    } else {
        let v = spec_attack_victim(chars, a);
        if v >= 0 {
            if chars[v].state.hp - ATTACK_DAMAGE <= 0 {
                seq![
                    GameEvent::Hit(a.id, a.owner, chars[v].meta, next),
                    GameEvent::CharacterDied(chars[v].meta),
                ]
            } else {
                seq![GameEvent::Hit(a.id, a.owner, chars[v].meta, next)]
            }
        } else {
            seq![GameEvent::AttackAdvanced(a.id, next)]
        }
    }
}

/// The events the attack-transition stage records: each projectile's
/// contribution, in projectile order.
pub open spec fn spec_attacks_transition(attacks: Seq<Attack>, chars: Seq<CharModel>) -> Seq<
    GameEvent,
>
    decreases attacks.len(),
{
    if attacks.len() == 0 {
        Seq::empty()
    } else {
        spec_attacks_transition(attacks.drop_last(), chars) + spec_attack_transition(
            attacks.last(),
            chars,
        )
    }
}

/// Runs the attack-transition stage of one tick: every projectile in flight
/// advances one velocity step along its heading and contributes exactly the
/// events [`spec_attack_transition`] prescribes; the stage only records
/// events.
pub fn transition_attacks<I: Impl>(game: &Game<I>, event_manager: &mut EventManager)
    requires
        game.wf(),
        old(event_manager).current().len() + 2 * game.attacks@.len() < usize::MAX,
    ensures
        final(event_manager).history() == old(event_manager).history(),
        final(event_manager).mode == old(event_manager).mode,
        old(event_manager).wf() ==> final(event_manager).wf(),
        final(event_manager).current() =~= old(event_manager).current()
            + spec_attacks_transition(game.attacks@, game.model().chars),
{
    let ghost chars = game.model().chars;
    let ghost n0 = old(event_manager).current().len() as int;
    let an = game.attacks.len();
    let mut i: usize = 0;
    proof {
        assert(chars.len() == game.characters@.len());
        assert(game.attacks@.take(0) =~= Seq::<Attack>::empty());
        assert(event_manager.current() =~= old(event_manager).current()
            + spec_attacks_transition(game.attacks@.take(0), chars));
    }
    while i < an
        invariant
            game.wf(),
            chars == game.model().chars,
            chars.len() == game.characters@.len(),
            an == game.attacks@.len(),
            i <= an,
            n0 == old(event_manager).current().len(),
            n0 + 2 * (an as int) < usize::MAX,
            event_manager.current().len() <= n0 + 2 * (i as int),
            event_manager.history() == old(event_manager).history(),
            event_manager.mode == old(event_manager).mode,
            old(event_manager).wf() ==> event_manager.wf(),
            event_manager.current() =~= old(event_manager).current() + spec_attacks_transition(
                game.attacks@.take(i as int),
                chars,
            ),
        decreases an - i,
    {
        let attack = &game.attacks[i];
        proof {
            assert(spec_attack_wf(game.attacks@[i as int]));
        }
        let next = line_endpoint(attack.pos.x, attack.pos.y, attack.velocity, attack.heading);
        let ghost ev0 = event_manager.current();
        if inside_arena(&next) {
            let cn = game.characters.len();
            let mut victim: usize = 0;
            let mut found = false;
            let mut j: usize = 0;
            while j < cn
                invariant
                    game.wf(),
                    chars == game.model().chars,
                    chars.len() == cn,
                    cn == game.characters@.len(),
                    j <= cn,
                    i < an,
                    an == game.attacks@.len(),
                    *attack == game.attacks@[i as int],
                    spec_attack_wf(game.attacks@[i as int]),
                    !found ==> forall|k: int|
                        0 <= k < j ==> !spec_is_victim(chars, game.attacks@[i as int], k),
                    found ==> victim < j && spec_is_victim(
                        chars,
                        game.attacks@[i as int],
                        victim as int,
                    ) && (forall|k: int|
                        0 <= k < victim ==> !spec_is_victim(chars, game.attacks@[i as int], k)),
                decreases cn - j,
            {
                if !found {
                    let entry = &game.characters[j];
                    proof {
                        assert(game.characters@[j as int].state.wf());
                        assert(chars[j as int].state == game.characters@[j as int].state);
                        assert(chars[j as int].meta == game.characters@[j as int].meta);
                    }
                    if entry.state.hp > 0 && !entry.meta.same_character(&attack.owner) {
                        let d = attack.pos.dist(&entry.state.pos);
                        if d <= ATTACK_RADIUS + CHARACTER_RADIUS {
                            victim = j;
                            found = true;
                        }
                    }
                }
                j = j + 1;
            }
            proof {
                lemma_attack_victim(chars, game.attacks@[i as int]);
                let v = spec_attack_victim(chars, game.attacks@[i as int]);
                if found {
                    if v < victim as int {
                        assert(spec_is_victim(chars, game.attacks@[i as int], v));
                    }
                    if v > victim as int || v < 0 {
                        assert(!spec_is_victim(chars, game.attacks@[i as int], victim as int));
                    }
                    assert(v == victim as int);
                } else {
                    assert(v == -1);
                }
            }
            if found {
                let vmeta = game.characters[victim].meta.clone();
                let vhp = game.characters[victim].state.hp;
                event_manager.record(
                    GameEvent::Hit(attack.id, attack.owner.clone(), vmeta, next),
                );
                if remaining_hp(vhp) <= 0 {
                    event_manager.record(
                        GameEvent::CharacterDied(game.characters[victim].meta.clone()),
                    );
                }
            } else {
                event_manager.record(GameEvent::AttackAdvanced(attack.id, next));
            }
        } else {
            event_manager.record(GameEvent::AttackMissed(attack.id));
        }
        proof {
            assert(game.attacks@.take(i as int + 1).drop_last() =~= game.attacks@.take(i as int));
            assert(game.attacks@.take(i as int + 1).last() == game.attacks@[i as int]);
            assert(event_manager.current() =~= ev0 + spec_attack_transition(
                game.attacks@[i as int],
                chars,
            ));
            assert(event_manager.current() =~= old(event_manager).current()
                + spec_attacks_transition(game.attacks@.take(i as int + 1), chars));
        }
        i = i + 1;
    }
    proof {
        assert(game.attacks@.take(an as int) =~= game.attacks@);
    }
}

/// Whether the observer at `origin`, looking along `view_angle`, can see a
/// target at `target`: the vision cone overlaps the target's apparent
/// angular footprint (wider for nearer targets).
pub open spec fn spec_can_spot(
    origin: Point,
    view_angle: int,
    target: Point,
    character_radius: int,
    angle_of_vision: int,
) -> bool {
    let d = spec_dist(origin, target);
    let alpha = crate::math_utils::spec_atan2(character_radius, d);
    let angle = spec_normalize_absolute_angle(crate::math_utils::spec_angle_between(origin, target));
    crate::math_utils::spec_overlaps(
        Sector { angle: view_angle as i64, delta: (angle_of_vision / 2) as i64 },
        Sector { angle: angle as i64, delta: alpha as i64 },
    )
}

/// Whether an observer can see a target, by the sector-overlap test.
pub fn can_spot(
    origin: &Point,
    view_angle: i64,
    target: &Point,
    character_radius: i64,
    angle_of_vision: i64,
) -> (r: bool)
    requires
        0 <= origin.x <= WIDTH,
        0 <= origin.y <= HEIGHT,
        0 <= target.x <= WIDTH,
        0 <= target.y <= HEIGHT,
        0 <= view_angle < TWO_PI,
        0 <= character_radius <= CHARACTER_RADIUS,
        0 <= angle_of_vision <= TWO_PI,
    ensures
        r == spec_can_spot(
            *origin,
            view_angle as int,
            *target,
            character_radius as int,
            angle_of_vision as int,
        ),
{
    let view_sector = Sector::new(view_angle, ((angle_of_vision as u64) / 2) as i64);
    let d = origin.dist(target);
    let alpha = crate::math_utils::atan2_fp(character_radius, d);
    let angle = normalize_absolute_angle(crate::math_utils::angle_between(origin, target));
    let target_sector = Sector::new(angle, alpha);
    view_sector.overlaps(&target_sector)
}


/// The character-facing events one game event projects to for the character
/// `meta` whose (post-advancement) state and intent are given: ticks carry a
/// snapshot of the character's own state, round endings carry the winner and
/// a won/drawn notice where due, hits are told to victim and owner, and a
/// death is told to everyone (as the character's own or as an enemy's).
pub open spec fn spec_project_event(meta: Meta, state: State, intent: Intent, e: GameEvent) -> Seq<
    Event,
> {
    match e {
        GameEvent::Tick(t) => seq![Event::Tick(t.0, crate::character::spec_snapshot(state, intent))],
        GameEvent::RoundStarted(r, _) => seq![Event::RoundStarted(r.0 as u32)],
        GameEvent::RoundEnded(opt) => match opt {
            Some(w) => if spec_same_key(w, meta) {
                seq![Event::RoundEnded(Some(w)), Event::RoundWon]
            } else {
                seq![Event::RoundEnded(Some(w))]
            },
            None => seq![Event::RoundEnded(None), Event::RoundDrawn],
        },
        GameEvent::Hit(_, owner, victim, p) => if spec_same_key(victim, meta) {
            seq![Event::HitBy(owner)]
        } else if spec_same_key(owner, meta) {
            seq![Event::AttackHit(victim, p)]
        } else {
            Seq::empty()
        },
        GameEvent::CharacterDied(d) => if spec_same_key(d, meta) {
            seq![Event::Death]
        } else {
            seq![Event::EnemyDied(d.name)]
        },
        _ => Seq::empty(),
    }
}

/// The character-facing projection of a whole batch, in event order.
pub open spec fn spec_project(meta: Meta, state: State, intent: Intent, s: Seq<GameEvent>) -> Seq<
    Event,
>
    decreases s.len(),
{
    if s.len() == 0 {
        Seq::empty()
    } else {
        spec_project(meta, state, intent, s.drop_last()) + spec_project_event(
            meta,
            state,
            intent,
            s.last(),
        )
    }
}

/// Projects one tick's game events into the events the character `meta`
/// (with the given state and pending intent) gets to see, exactly as
/// [`spec_project`] prescribes.
pub fn game_events_to_character_events(
    meta: &Meta,
    state: &State,
    intent: &Intent,
    events: &Vec<GameEvent>,
) -> (r: Vec<Event>)
    ensures
        r@ =~= spec_project(*meta, *state, *intent, events@),
{
    let mut r: Vec<Event> = Vec::new();
    let n = events.len();
    let mut i: usize = 0;
    proof {
        assert(events@.take(0) =~= Seq::<GameEvent>::empty());
    }
    while i < n
        invariant
            n == events@.len(),
            i <= n,
            r@ =~= spec_project(*meta, *state, *intent, events@.take(i as int)),
        decreases n - i,
    {
        proof {
            assert(events@.take(i as int + 1).drop_last() =~= events@.take(i as int));
            assert(events@.take(i as int + 1).last() == events@[i as int]);
        }
        match &events[i] {
            GameEvent::Tick(t) => {
                r.push(Event::Tick(t.0, CurrentCharacterState::from_state(state, intent)));
            },
            GameEvent::RoundStarted(round, _) => {
                r.push(Event::RoundStarted(round.0 as u32));
            },
            GameEvent::RoundEnded(opt) => {
                match opt {
                    Some(w) => {
                        r.push(Event::RoundEnded(Some(w.clone())));
                        if w.same_character(meta) {
                            r.push(Event::RoundWon);
                        }
                    },
                    None => {
                        r.push(Event::RoundEnded(None));
                        r.push(Event::RoundDrawn);
                    },
                }
            },
            GameEvent::Hit(_, owner, victim, p) => {
                if victim.same_character(meta) {
                    r.push(Event::HitBy(owner.clone()));
                } else if owner.same_character(meta) {
                    r.push(Event::AttackHit(victim.clone(), *p));
                }
            },
            GameEvent::CharacterDied(d) => {
                if d.same_character(meta) {
                    r.push(Event::Death);
                } else {
                    r.push(Event::EnemyDied(d.name.clone()));
                }
            },
            _ => {
            },
        }
        proof {
            assert(r@ =~= spec_project(*meta, *state, *intent, events@.take(i as int + 1)));
        }
        i = i + 1;
    }
    proof {
        assert(events@.take(n as int) =~= events@);
    }
    r
}

/// How one command updates a pending intent: an attack raises the attack
/// flag, a turn replaces the pending body turn, head and arms turns are
/// pre-clamped so the resulting offset from the body stays within the angle
/// of action, and a move replaces direction and remaining distance; every
/// numeric field is kept within the intent limit.
pub open spec fn spec_apply_command(intent: Intent, state: State, c: Command) -> Intent {
    match c {
        Command::Attack => Intent { attack: true, ..intent },
        Command::Turn(a) => Intent {
            turn_angle: spec_clamp(a as int, -(INTENT_LIMIT as int), INTENT_LIMIT as int) as i64,
            ..intent
        },
        Command::TurnHead(a) => Intent {
            turn_head_angle: (spec_clamp_turn_angle(
                state.head_heading + spec_clamp(a as int, -(INTENT_LIMIT as int), INTENT_LIMIT as int),
            ) - state.head_heading) as i64,
            ..intent
        },
        Command::TurnArms(a) => Intent {
            turn_arms_angle: (spec_clamp_turn_angle(
                state.arms_heading + spec_clamp(a as int, -(INTENT_LIMIT as int), INTENT_LIMIT as int),
            ) - state.arms_heading) as i64,
            ..intent
        },
        Command::Move(d, dist) => Intent {
            direction: d,
            distance: spec_clamp(dist as int, -(INTENT_LIMIT as int), INTENT_LIMIT as int) as i64,
            ..intent
        },
    }
}

/// The intent after applying a list of commands in order.
pub open spec fn spec_apply_commands(intent: Intent, state: State, s: Seq<Command>) -> Intent
    decreases s.len(),
{
    if s.len() == 0 {
        intent
    } else {
        spec_apply_command(spec_apply_commands(intent, state, s.drop_last()), state, s.last())
    }
}

/// Folds an adapter's (sorted) commands into the character's pending intent,
/// exactly as [`spec_apply_commands`] prescribes; the result is again a
/// well-formed intent.
pub fn update_intent(intent: &mut Intent, state: &State, commands: &Vec<Command>)
    requires
        old(intent).wf(),
        state.wf(),
    ensures
        *final(intent) == spec_apply_commands(*old(intent), *state, commands@),
        final(intent).wf(),
{
    let n = commands.len();
    let mut i: usize = 0;
    proof {
        assert(commands@.take(0) =~= Seq::<Command>::empty());
    }
    while i < n
        invariant
            n == commands@.len(),
            i <= n,
            state.wf(),
            intent.wf(),
            *intent == spec_apply_commands(*old(intent), *state, commands@.take(i as int)),
        decreases n - i,
    {
        proof {
            assert(commands@.take(i as int + 1).drop_last() =~= commands@.take(i as int));
            assert(commands@.take(i as int + 1).last() == commands@[i as int]);
        }
        let cmd = commands[i];
        match cmd {
            Command::Attack => {
                intent.attack = true;
            },
            Command::Turn(a) => {
                intent.turn_angle = clamp(a, -INTENT_LIMIT, INTENT_LIMIT);
            },
            Command::TurnHead(a) => {
                let clamped = clamp(a, -INTENT_LIMIT, INTENT_LIMIT);
                let current = state.head_heading;
                intent.turn_head_angle = clamp_turn_angle(current + clamped) - current;
            },
            Command::TurnArms(a) => {
                let clamped = clamp(a, -INTENT_LIMIT, INTENT_LIMIT);
                let current = state.arms_heading;
                intent.turn_arms_angle = clamp_turn_angle(current + clamped) - current;
            },
            Command::Move(d, dist) => {
                intent.direction = d;
                intent.distance = clamp(dist, -INTENT_LIMIT, INTENT_LIMIT);
            },
        }
        i = i + 1;
    }
    proof {
        assert(commands@.take(n as int) =~= commands@);
    }
}

/// The enemy-seen events observer `i` receives for the targets among the
/// first `n` characters: one per living other character whose apparent
/// angular footprint the observer's vision cone overlaps, in table order.
pub open spec fn spec_enemy_seen_upto(chars: Seq<CharModel>, i: int, n: int) -> Seq<Event>
    decreases n,
{
    if n <= 0 {
        Seq::empty()
    } else {
        let prev = spec_enemy_seen_upto(chars, i, n - 1);
        let j = n - 1;
        if j != i && spec_alive(chars[j]) && spec_can_spot(
            chars[i].state.pos,
            spec_normalize_absolute_angle(chars[i].state.heading + chars[i].state.head_heading),
            chars[j].state.pos,
            CHARACTER_RADIUS as int,
            ANGLE_OF_VISION as int,
        ) {
            prev + seq![Event::EnemySeen(chars[j].meta.name, chars[j].state.pos)]
        } else {
            prev
        }
    }
}

/// The events character `i` is handed for one tick: the projection of the
/// batch onto it, followed by one enemy-seen event per living other
/// character whose apparent angular footprint its vision cone overlaps, in
/// table order — the vision dispatch of the tick.
pub fn character_tick_events<I: Impl>(game: &Game<I>, i: usize, events: &Vec<GameEvent>) -> (r:
    Vec<Event>)
    requires
        game.wf(),
        i < game.characters@.len(),
    ensures
        r@ =~= spec_project(
            game.model().chars[i as int].meta,
            game.model().chars[i as int].state,
            game.model().chars[i as int].intent,
            events@,
        ) + spec_enemy_seen_upto(game.model().chars, i as int, game.model().chars.len() as int),
{
    let state = game.characters[i].state;
    let intent = game.impls[i].intent;
    proof {
        assert(game.characters@[i as int].state.wf());
        assert(game.impls@[i as int].intent.wf());
    }
    let mut r = game_events_to_character_events(&game.characters[i].meta, &state, &intent, events);
    let ghost base = r@;
    let view_angle = state.effective_head_heading();
    let n = game.characters.len();
    let mut j: usize = 0;
    proof {
        assert(r@ =~= base + spec_enemy_seen_upto(game.model().chars, i as int, 0));
    }
    while j < n
        invariant
            game.wf(),
            n == game.characters@.len(),
            i < n,
            j <= n,
            state == game.characters@[i as int].state,
            state.wf(),
            view_angle == spec_normalize_absolute_angle(state.heading + state.head_heading),
            0 <= view_angle < TWO_PI,
            r@ =~= base + spec_enemy_seen_upto(game.model().chars, i as int, j as int),
        decreases n - j,
    {
        if j != i && game.characters[j].state.hp > 0 {
            proof {
                assert(game.characters@[j as int].state.wf());
            }
            let target = &game.characters[j];
            if can_spot(
                &state.pos,
                view_angle,
                &target.state.pos,
                CHARACTER_RADIUS,
                ANGLE_OF_VISION,
            ) {
                r.push(Event::EnemySeen(target.meta.name.clone(), target.state.pos));
            }
        }
        proof {
            assert(r@ =~= base + spec_enemy_seen_upto(game.model().chars, i as int, j as int + 1));
        }
        j = j + 1;
    }
    r
}

/// Runs the agent-dispatch stage of one tick: every character (in table
/// order) receives exactly its [`character_tick_events`] — the batch's
/// projection plus its enemy sightings — and the commands its adapter
/// answers with are sorted by priority and folded into its intent
/// ([`spec_apply_commands`] over [`reduce_commands`]' order). The first
/// adapter failure aborts the stage; nothing but intents is ever changed,
/// and a game without characters is owed success since no adapter is
/// consulted.
pub fn run_characters<I: Impl>(game: &mut Game<I>, events: &Vec<GameEvent>) -> (r: Result<
    (),
    EventError,
>)
    requires
        old(game).wf(),
    ensures
        final(game).wf(),
        final(game).characters@ == old(game).characters@,
        final(game).attacks@ == old(game).attacks@,
        final(game).tick == old(game).tick,
        final(game).round == old(game).round,
        final(game).round_state == old(game).round_state,
        final(game).attack_ids == old(game).attack_ids,
        final(game).impls@.len() == old(game).impls@.len(),
        old(game).characters@.len() == 0 ==> (r is Ok),
{
    let n = game.characters.len();
    let mut i: usize = 0;
    while i < n
        invariant
            game.wf(),
            n == game.characters@.len(),
            i <= n,
            game.characters@ == old(game).characters@,
            game.attacks@ == old(game).attacks@,
            game.tick == old(game).tick,
            game.round == old(game).round,
            game.round_state == old(game).round_state,
            game.attack_ids == old(game).attack_ids,
            game.impls@.len() == old(game).impls@.len(),
        decreases n - i,
    {
        let state = game.characters[i].state;
        proof {
            assert(game.characters@[i as int].state.wf());
            assert(game.impls@[i as int].intent.wf());
        }
        let character_events = character_tick_events(game, i, events);
        match dispatch_character_events(character_events, &mut game.impls[i].implementation) {
            Ok(mut commands) => {
                reduce_commands(&mut commands);
                let mut next_intent = game.impls[i].intent;
                update_intent(&mut next_intent, &state, &commands);
                game.impls[i].intent = next_intent;
            },
            Err(e) => {
                return Err(e);
            },
        }
        i = i + 1;
    }
    Ok(())
}

impl<I: Impl> Game<I> {
    /// Begins round `round`: every character is reset to full hit points,
    /// zeroed headings and cooldown at a fresh spawn position (no two of
    /// which collide), intents are cleared, the projectiles of the previous
    /// round are discarded, and the event manager is seeded with a single
    /// round-started event carrying the actual placements.
    pub fn init_round(&mut self, round: Round, event_manager: &mut EventManager)
        requires
            old(self).wf(),
            old(event_manager).wf(),
            old(event_manager).all_events@.len() < usize::MAX,
        ensures
            final(self).wf(),
            final(event_manager).wf(),
            final(event_manager).mode == old(event_manager).mode,
            final(self).tick.0 == 0,
            final(self).round == round,
            final(self).round_state is Ongoing,
            final(self).attacks@.len() == 0,
            final(self).attack_ids == old(self).attack_ids,
            final(self).characters@.len() == old(self).characters@.len(),
            final(self).impls@.len() == old(self).impls@.len(),
            forall|i: int|
                0 <= i < final(self).characters@.len() ==> {
                    let c = #[trigger] final(self).characters@[i];
                    &&& c.meta == old(self).characters@[i].meta
                    &&& c.state.hp == INITIAL_HP
                    &&& c.state.heading == 0
                    &&& c.state.head_heading == 0
                    &&& c.state.arms_heading == 0
                    &&& c.state.attack_cooldown == 0
                    &&& c.state.stats == old(self).characters@[i].state.stats
                    &&& spec_spawn_position(c.state.pos)
                },
            forall|i: int, j: int|
                0 <= i < j < final(self).characters@.len() ==> !spec_characters_collide(
                    (#[trigger] final(self).characters@[i]).state.pos,
                    (#[trigger] final(self).characters@[j]).state.pos,
                ),
            forall|i: int|
                0 <= i < final(self).impls@.len() ==> {
                    let c = #[trigger] final(self).impls@[i];
                    &&& c.intent.distance == 0
                    &&& !c.intent.attack
                    &&& c.intent.turn_angle == 0
                    &&& c.intent.turn_head_angle == 0
                    &&& c.intent.turn_arms_angle == 0
                    &&& c.intent.direction == MovementDirection::Forward
                    &&& c.implementation == old(self).impls@[i].implementation
                },
            ({
                let cur = final(event_manager).current();
                let cs = final(self).characters@;
                &&& cur.len() == 1
                &&& (cur[0] matches GameEvent::RoundStarted(r2, ps) && r2 == round && ps@.len()
                    == cs.len() && (forall|i: int|
                    0 <= i < ps@.len() ==> (#[trigger] ps@[i]).meta == cs[i].meta && ps@[i].pos
                        == cs[i].state.pos))
            }),
            old(event_manager).mode == EventRemembrance::Remember ==> final(event_manager).history() =~= old(event_manager).history().push(old(event_manager).current()),
            old(event_manager).mode == EventRemembrance::Forget ==> final(event_manager).history() =~= old(event_manager).history(),
    {
        self.tick = Tick(0);
        self.round = round;
        self.round_state = RoundState::Ongoing;
        self.attacks = Vec::new();
        let mut rng = new_rng();
        let n = self.characters.len();
        let positions = random_positions(n, &mut rng);
        let mut placements: Vec<Placement> = Vec::new();
        let mut i: usize = 0;
        while i < n
            invariant
                n == self.characters@.len(),
                self.characters@.len() == self.impls@.len(),
                i <= n,
                self.tick.0 == 0,
                self.round == round,
                self.round_state is Ongoing,
                self.attacks@.len() == 0,
                self.attack_ids == old(self).attack_ids,
                *event_manager == *old(event_manager),
                positions@.len() == n,
                n <= MAX_CHARACTERS,
                forall|k: int| 0 <= k < n ==> spec_spawn_position(#[trigger] positions@[k]),
                forall|k1: int, k2: int|
                    0 <= k1 < k2 < n ==> !spec_characters_collide(
                        #[trigger] positions@[k1],
                        #[trigger] positions@[k2],
                    ),
                placements@.len() == i,
                forall|k: int|
                    0 <= k < i ==> (#[trigger] placements@[k]).meta
                        == self.characters@[k].meta && placements@[k].pos == positions@[k],
                forall|k: int|
                    0 <= k < n ==> (#[trigger] self.characters@[k]).meta == old(
                        self,
                    ).characters@[k].meta,
                forall|k: int|
                    i <= k < n ==> #[trigger] self.characters@[k] == old(self).characters@[k],
                forall|k: int|
                    0 <= k < i ==> {
                        let c = #[trigger] self.characters@[k];
                        &&& c.state.hp == INITIAL_HP
                        &&& c.state.heading == 0
                        &&& c.state.head_heading == 0
                        &&& c.state.arms_heading == 0
                        &&& c.state.attack_cooldown == 0
                        &&& c.state.stats == old(self).characters@[k].state.stats
                        &&& c.state.pos == positions@[k]
                    },
                forall|k: int|
                    i <= k < n ==> #[trigger] self.impls@[k] == old(self).impls@[k],
                forall|k: int|
                    0 <= k < i ==> {
                        let c = #[trigger] self.impls@[k];
                        &&& c.intent.distance == 0
                        &&& !c.intent.attack
                        &&& c.intent.turn_angle == 0
                        &&& c.intent.turn_head_angle == 0
                        &&& c.intent.turn_arms_angle == 0
                        &&& c.intent.direction == MovementDirection::Forward
                        &&& c.implementation == old(self).impls@[k].implementation
                    },
            decreases n - i,
        {
            let p = positions[i];
            let kept_stats = self.characters[i].state.stats;
            self.characters[i].state = State {
                hp: INITIAL_HP,
                pos: p,
                heading: 0,
                head_heading: 0,
                arms_heading: 0,
                attack_cooldown: 0,
                stats: kept_stats,
            };
            placements.push(Placement { meta: self.characters[i].meta.clone(), pos: p });
            self.impls[i].intent = Intent::default();
            i = i + 1;
        }
        event_manager.init_round(round, placements);
        proof {
            assert forall|k: int| 0 <= k < n implies (#[trigger] self.characters@[k]).state.wf()
                by {
                assert(spec_spawn_position(self.characters@[k].state.pos));
            }
        }
    }
}

/// Whether the current round has been decided (won or drawn); the round loop
/// stops at the first tick in which this holds.
pub fn round_over<I: Impl>(game: &Game<I>) -> (r: bool)
    ensures
        r == !(game.round_state is Ongoing),
{
    match game.round_state {
        RoundState::Ongoing => false,
        _ => true,
    }
}

/// What one tick appends to the event manager: the tick event, then the
/// round-end check's batch, the movement/turning batch, the attack-creation
/// batch (identifiers ascending from `base_id`), and the attack-transition
/// events, each stage exactly as its own contract prescribes, over the
/// characters and projectiles as they stood when the tick began.
pub open spec fn spec_step_batch(
    cur: Seq<GameEvent>,
    base: Seq<GameEvent>,
    tick: Tick,
    chars: Seq<CharModel>,
    attacks: Seq<Attack>,
    base_id: int,
    re: Seq<GameEvent>,
    tr: Seq<GameEvent>,
    ac: Seq<GameEvent>,
) -> bool {
    &&& cur =~= base + seq![GameEvent::Tick(tick)] + re + tr + ac + spec_attacks_transition(
        attacks,
        chars,
    )
    &&& spec_round_end_batch(re, chars)
    &&& spec_transition_batch(tr, chars)
    &&& spec_create_batch(ac, chars, base_id)
}

/// Runs one full tick: opens the tick, checks for round end, runs the
/// movement/turning, attack-creation and attack-transition stages (all of
/// which only record events), applies the whole recorded batch against the
/// authoritative state, and dispatches the batch's per-character projection
/// to every adapter. The batch has exactly the shape [`spec_step_batch`]
/// prescribes, and the resulting state is exactly the event fold over the
/// batch (adapter answers change intents only).
pub fn step<I: Impl>(game: &mut Game<I>, event_manager: &mut EventManager) -> (r: Result<
    (),
    EventError,
>)
    requires
        old(game).wf(),
        old(game).attack_ids.next + MAX_CHARACTERS <= usize::MAX,
        old(event_manager).wf(),
        old(event_manager).all_events@.len() < usize::MAX,
        old(event_manager).current().len() + 8 + 6 * MAX_CHARACTERS + 2 * MAX_ATTACKS
            < usize::MAX,
    ensures
        final(game).wf(),
        final(event_manager).wf(),
        final(event_manager).mode == old(event_manager).mode,
        old(game).tick.0 == 0 ==> final(event_manager).history() == old(event_manager).history(),
        old(game).tick.0 != 0 && old(event_manager).mode == EventRemembrance::Remember ==> final(event_manager).history() =~= old(event_manager).history().push(old(event_manager).current()),
        old(game).tick.0 != 0 && old(event_manager).mode == EventRemembrance::Forget ==> final(event_manager).history() =~= old(event_manager).history(),
        old(game).tick.0 == 0 ==> exists|re: Seq<GameEvent>, tr: Seq<GameEvent>, ac: Seq<GameEvent>|
            #[trigger] spec_step_batch(
                final(event_manager).current(),
                old(event_manager).current(),
                old(game).tick,
                old(game).model().chars,
                old(game).attacks@,
                old(game).attack_ids.next as int,
                re,
                tr,
                ac,
            ),
        old(game).tick.0 != 0 ==> exists|re: Seq<GameEvent>, tr: Seq<GameEvent>, ac: Seq<GameEvent>|
            #[trigger] spec_step_batch(
                final(event_manager).current(),
                Seq::<GameEvent>::empty(),
                old(game).tick,
                old(game).model().chars,
                old(game).attacks@,
                old(game).attack_ids.next as int,
                re,
                tr,
                ac,
            ),
        ({
            let m0 = GameModel {
                next_attack_id: final(game).model().next_attack_id,
                ..old(game).model()
            };
            let mid = spec_apply_events(final(event_manager).current(), m0);
            &&& final(game).model().chars.len() == mid.chars.len()
            &&& forall|i: int|
                0 <= i < mid.chars.len() ==> (#[trigger] final(game).model().chars[i]).meta
                    == mid.chars[i].meta && final(game).model().chars[i].state == mid.chars[
                    i
                ].state
            &&& final(game).model().attacks == mid.attacks
            &&& final(game).model().round_state == mid.round_state
            &&& final(game).model().tick == mid.tick
            &&& final(game).model().round == mid.round
        }),
        final(game).attack_ids.next >= old(game).attack_ids.next,
        old(game).characters@.len() == 0 ==> (r is Ok),
{
    let ghost base: Seq<GameEvent> = if game.tick.0 == 0 {
        event_manager.current()
    } else {
        Seq::<GameEvent>::empty()
    };
    let ghost chars0 = game.model().chars;
    event_manager.init_tick(game.tick);
    let ghost c1 = event_manager.current();
    proof {
        assert(c1 =~= base + seq![GameEvent::Tick(old(game).tick)]);
    }
    check_for_round_end(game, event_manager);
    let ghost c2 = event_manager.current();
    let ghost re = c2.skip(c1.len() as int);
    transition_characters(game, event_manager);
    let ghost c3 = event_manager.current();
    let ghost tr = c3.skip(c2.len() as int);
    let mut ids = AttackIds { next: game.attack_ids.next };
    let ghost base_id = ids.next as int;
    create_attacks(game, &mut ids, event_manager);
    game.attack_ids = ids;
    proof {
        assert(game.model().chars =~= chars0);
        assert(game.attacks@ == old(game).attacks@);
    }
    let ghost c4 = event_manager.current();
    let ghost ac = c4.skip(c3.len() as int);
    transition_attacks(game, event_manager);
    let ghost c5 = event_manager.current();
    proof {
        assert(c2 =~= c1 + re);
        assert(c3 =~= c2 + tr);
        assert(c4 =~= c3 + ac);
        assert(c5 =~= c4 + spec_attacks_transition(old(game).attacks@, chars0));
        assert(c5 =~= base + seq![GameEvent::Tick(old(game).tick)] + re + tr + ac
            + spec_attacks_transition(old(game).attacks@, chars0));
        assert(spec_step_batch(
            c5,
            base,
            old(game).tick,
            chars0,
            old(game).attacks@,
            base_id,
            re,
            tr,
            ac,
        ));
    }
    let ghost m0 = game.model();
    advance_game_state(game, &event_manager.current_events.events);
    let r = run_characters(game, &event_manager.current_events.events);
    proof {
        lemma_apply_events_keeps_ids(c5, m0);
        assert(m0.chars =~= old(game).model().chars);
        assert(m0 =~= (GameModel {
            next_attack_id: game.model().next_attack_id,
            ..old(game).model()
        }));
    }
    r
}

/// Relies on rand::thread_rng: a handle to the thread-local random
/// generator, used to draw spawn positions.
#[verifier::external_body]
fn new_rng() -> rand::rngs::ThreadRng {
    rand::thread_rng()
}

/// Relies on rand::Rng::gen_range: returns a sample of the half-open range
/// `lo..hi`; nothing more is assumed of the value.
#[verifier::external_body]
fn rng_range(rng: &mut rand::rngs::ThreadRng, lo: i64, hi: i64) -> (r: i64)
    requires
        lo < hi,
    ensures
        lo <= r < hi,
{
    rng.gen_range(lo..hi)
}

#[verifier::external_type_specification]
#[verifier::external_body]
pub struct ExThreadRng(rand::rngs::ThreadRng);

/// Whether a character may spawn at `p`: inside the arena bounds reduced by
/// its radius and the spawn margin on each side.
pub open spec fn spec_spawn_position(p: Point) -> bool {
    &&& CHARACTER_RADIUS + SPAWN_MARGIN <= p.x <= WIDTH - CHARACTER_RADIUS - SPAWN_MARGIN
    &&& CHARACTER_RADIUS + SPAWN_MARGIN <= p.y <= HEIGHT - CHARACTER_RADIUS - SPAWN_MARGIN
}

/// The `k`-th point of the deterministic fallback spawn grid.
pub open spec fn spec_grid_point(k: int) -> Point {
    Point {
        x: (CHARACTER_RADIUS + SPAWN_MARGIN + (k % (SPAWN_GRID_COLS as int))
            * SPAWN_GRID_STEP) as i64,
        y: (CHARACTER_RADIUS + SPAWN_MARGIN + (k / (SPAWN_GRID_COLS as int))
            * SPAWN_GRID_STEP) as i64,
    }
}

/// Every fallback grid point is a spawn position, and two distinct grid
/// points never collide: the grid spacing exceeds a character's diameter.
pub proof fn lemma_grid_points_apart(i: int, j: int)
    requires
        0 <= i < MAX_CHARACTERS,
        0 <= j < MAX_CHARACTERS,
        i != j,
    ensures
        spec_spawn_position(spec_grid_point(i)),
        !spec_characters_collide(spec_grid_point(i), spec_grid_point(j)),
{
    let cols = SPAWN_GRID_COLS as int;
    let s = SPAWN_GRID_STEP as int;
    let ci = i % cols;
    let ri = i / cols;
    let cj = j % cols;
    let rj = j / cols;
    vstd::arithmetic::div_mod::lemma_fundamental_div_mod(i, cols);
    vstd::arithmetic::div_mod::lemma_fundamental_div_mod(j, cols);
    assert(0 <= ci < cols && 0 <= cj < cols);
    assert(0 <= ri <= 17 && 0 <= rj <= 17);
    assert(spec_spawn_position(spec_grid_point(i)));
    assert(ci != cj || ri != rj);
    let dx = spec_grid_point(i).x - spec_grid_point(j).x;
    let dy = spec_grid_point(i).y - spec_grid_point(j).y;
    assert(dx == (ci - cj) * s);
    assert(dy == (ri - rj) * s);
    if ci != cj {
        assert(dx >= s || dx <= -s) by (nonlinear_arith)
            requires
                dx == (ci - cj) * s,
                ci - cj >= 1 || ci - cj <= -1,
                s == SPAWN_GRID_STEP,
        ;
        assert(dx * dx >= s * s) by (nonlinear_arith)
            requires
                dx >= s || dx <= -s,
                s > 0,
        ;
        crate::math_utils::lemma_square_nonneg(dy);
    } else {
        assert(dy >= s || dy <= -s) by (nonlinear_arith)
            requires
                dy == (ri - rj) * s,
                ri - rj >= 1 || ri - rj <= -1,
                s == SPAWN_GRID_STEP,
        ;
        assert(dy * dy >= s * s) by (nonlinear_arith)
            requires
                dy >= s || dy <= -s,
                s > 0,
        ;
        crate::math_utils::lemma_square_nonneg(dx);
    }
    assert(spec_dist_sqr(spec_grid_point(i), spec_grid_point(j)) >= s * s);
    assert(s * s > 4 * (CHARACTER_RADIUS as int) * (CHARACTER_RADIUS as int));
}

/// Draws `n` spawn positions inside the spawn margins, no two of which
/// collide. Collision-free placement is sought by rejection sampling with a
/// large retry budget; if that budget is ever exhausted (practically
/// impossible in a non-degenerate arena), every position is taken from a
/// deterministic grid whose spacing exceeds a character's diameter instead.
pub fn random_positions(n: usize, rng: &mut rand::rngs::ThreadRng) -> (r: Vec<Point>)
    requires
        n <= MAX_CHARACTERS,
    ensures
        r@.len() == n,
        forall|i: int| 0 <= i < n ==> spec_spawn_position(#[trigger] r@[i]),
        forall|i: int, j: int|
            0 <= i < j < n ==> !spec_characters_collide(#[trigger] r@[i], #[trigger] r@[j]),
{
    let min = CHARACTER_RADIUS + SPAWN_MARGIN;
    let max_x = WIDTH - CHARACTER_RADIUS - SPAWN_MARGIN;
    let max_y = HEIGHT - CHARACTER_RADIUS - SPAWN_MARGIN;
    let mut positions: Vec<Point> = Vec::new();
    let mut budget: u64 = 0xFFFF_FFFF;
    let mut exhausted = false;
    while positions.len() < n && !exhausted
        invariant
            min == CHARACTER_RADIUS + SPAWN_MARGIN,
            max_x == WIDTH - CHARACTER_RADIUS - SPAWN_MARGIN,
            max_y == HEIGHT - CHARACTER_RADIUS - SPAWN_MARGIN,
            positions@.len() <= n,
            forall|i: int|
                0 <= i < positions@.len() ==> spec_spawn_position(#[trigger] positions@[i]),
            forall|i: int, j: int|
                0 <= i < j < positions@.len() ==> !spec_characters_collide(
                    #[trigger] positions@[i],
                    #[trigger] positions@[j],
                ),
        decreases n - positions@.len() + budget + if exhausted {
            0int
        } else {
            1int
        },
    {
        let new_p = Point { x: rng_range(rng, min, max_x), y: rng_range(rng, min, max_y) };
        let mut collides = false;
        let mut i: usize = 0;
        let pn = positions.len();
        while i < pn
            invariant
                pn == positions@.len(),
                i <= pn,
                spec_spawn_position(new_p),
                forall|k: int|
                    0 <= k < positions@.len() ==> spec_spawn_position(#[trigger] positions@[k]),
                collides == exists|k: int|
                    0 <= k < i && spec_characters_collide(#[trigger] positions@[k], new_p),
            decreases pn - i,
        {
            if characters_collide(&positions[i], &new_p) {
                collides = true;
                proof {
                    assert(spec_characters_collide(positions@[i as int], new_p));
                }
            }
            i = i + 1;
        }
        if !collides {
            let ghost p0 = positions@;
            positions.push(new_p);
            proof {
                assert forall|a: int, b: int|
                    0 <= a < b < positions@.len() implies !spec_characters_collide(
                    #[trigger] positions@[a],
                    #[trigger] positions@[b],
                ) by {
                    if b < p0.len() {
                        assert(positions@[a] == p0[a] && positions@[b] == p0[b]);
                    } else {
                        assert(positions@[b] == new_p && positions@[a] == p0[a]);
                    }
                }
            }
        } else if budget == 0 {
            exhausted = true;
        } else {
            budget = budget - 1;
        }
    }
    if positions.len() < n {
        positions = Vec::new();
        let mut k: usize = 0;
        while k < n
            invariant
                min == CHARACTER_RADIUS + SPAWN_MARGIN,
                n <= MAX_CHARACTERS,
                k <= n,
                positions@.len() == k,
                forall|i: int| 0 <= i < k ==> #[trigger] positions@[i] == spec_grid_point(i),
            decreases n - k,
        {
            let col = k % SPAWN_GRID_COLS;
            let row = k / SPAWN_GRID_COLS;
            proof {
                vstd::arithmetic::div_mod::lemma_fundamental_div_mod(
                    k as int,
                    SPAWN_GRID_COLS as int,
                );
                assert(col < SPAWN_GRID_COLS);
                assert(row <= 17);
            }
            let p = Point {
                x: min + (col as i64) * SPAWN_GRID_STEP,
                y: min + (row as i64) * SPAWN_GRID_STEP,
            };
            proof {
                assert(p == spec_grid_point(k as int));
            }
            positions.push(p);
            k = k + 1;
        }
        proof {
            assert forall|i: int| 0 <= i < n implies spec_spawn_position(
                #[trigger] positions@[i],
            ) by {
                lemma_grid_points_apart(i, if i == 0 {
                    1int
                } else {
                    0int
                });
            }
            assert forall|i: int, j: int|
                0 <= i < j < n implies !spec_characters_collide(
                #[trigger] positions@[i],
                #[trigger] positions@[j],
            ) by {
                lemma_grid_points_apart(i, j);
            }
        }
    }
    positions
}
} // verus!
