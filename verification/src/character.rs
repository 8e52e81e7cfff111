//! The entity model: character identity, physical state, intent, and the
//! adapter contract through which agents receive events and answer with
//! commands.

use vstd::prelude::*;

use crate::color::Color;
use crate::math_utils::{Point, TWO_PI};
use crate::settings::{ANGLE_OF_ACTION, HEIGHT, INITIAL_HP, INTENT_LIMIT, WIDTH};

verus! {

/// Stable identity of a character: the 128-bit value of its identifier.
#[derive(PartialEq, Eq, Structural, Hash, Clone, Copy, Debug)]
pub struct Id(pub u128);

/// Identity and metadata of one loaded character. Two copies of the same
/// script share the `id` and are told apart by `instance`.
#[derive(Debug)]
pub struct Meta {
    pub id: Id,
    pub name: String,
    pub color: Color,
    pub version: String,
    pub entrypoint: String,
    pub instance: u8,
}

impl Meta {
    /// Whether `self` and `other` denote the same loaded character: identity
    /// is the pair of script id and instance counter.
    pub fn same_character(&self, other: &Meta) -> (r: bool)
        ensures
            r == (self.id == other.id && self.instance == other.instance),
    {
        self.id.0 == other.id.0 && self.instance == other.instance
    }
}

impl Clone for Meta {
    /// A clone keeps every field.
    fn clone(&self) -> (r: Self)
        ensures
            r == *self,
    {
        Meta {
            id: self.id,
            name: self.name.clone(),
            color: self.color,
            version: self.version.clone(),
            entrypoint: self.entrypoint.clone(),
            instance: self.instance,
        }
    }
}

impl PartialEq for Meta {
    /// Equality is by value over id, name, version and instance.
    fn eq(&self, other: &Meta) -> (r: bool) {
        self.id.0 == other.id.0 && self.name == other.name && self.version == other.version
            && self.instance == other.instance
    }
}

impl vstd::std_specs::cmp::PartialEqSpecImpl for Meta {
    open spec fn obeys_eq_spec() -> bool {
        true
    }

    open spec fn eq_spec(&self, other: &Meta) -> bool {
        self.id == other.id && self.name@ == other.name@ && self.version@ == other.version@
            && self.instance == other.instance
    }
}

/// Error raised when a character's metadata cannot be loaded.
#[derive(Debug)]
pub struct LoadMetaError(pub String);

/// Error raised when a sandboxed-module character cannot be loaded.
#[derive(Debug)]
pub struct AddWasmPlayerError {
    pub message: String,
}

/// The four relative movement directions an agent may request.
#[derive(Debug, PartialEq, Eq, Structural, Clone, Copy)]
pub enum MovementDirection {
    Forward,
    Backward,
    Left,
    Right,
}

/// One instruction returned by an agent adapter.
#[derive(PartialEq, Eq, Structural, Debug, Clone, Copy)]
pub enum Command {
    Move(MovementDirection, i64),
    Attack,
    Turn(i64),
    TurnHead(i64),
    TurnArms(i64),
}

/// The fixed application priority of a command variant; commands returned
/// together are applied in ascending priority order.
pub open spec fn spec_command_index(c: Command) -> int {
    match c {
        Command::Move(_, _) => 0,
        Command::Attack => 1,
        Command::Turn(_) => 2,
        Command::TurnHead(_) => 3,
        Command::TurnArms(_) => 4,
    }
}

impl Command {
    /// The fixed priority of this command variant (`Move` first, `TurnArms`
    /// last).
    pub fn index(&self) -> (r: i32)
        ensures
            r == spec_command_index(*self),
    {
        match self {
            Command::Move(_, _) => 0,
            Command::Attack => 1,
            Command::Turn(_) => 2,
            Command::TurnHead(_) => 3,
            Command::TurnArms(_) => 4,
        }
    }
}

/// The ordered list of commands one adapter call returned.
#[derive(Debug)]
pub struct Commands {
    pub value: Vec<Command>,
}

impl Commands {
    /// An empty command list.
    pub fn none() -> (r: Self)
        ensures
            r.value@ =~= Seq::<Command>::empty(),
    {
        Self { value: Vec::new() }
    }
}

impl From<Vec<Command>> for Commands {
    /// Wraps a plain command vector.
    fn from(value: Vec<Command>) -> (r: Self) {
        Self { value }
    }
}

impl vstd::std_specs::convert::FromSpecImpl<Vec<Command>> for Commands {
    open spec fn obeys_from_spec() -> bool {
        true
    }

    open spec fn from_spec(value: Vec<Command>) -> Commands {
        Commands { value }
    }
}

/// Error raised when an adapter fails to produce a valid response.
#[derive(Debug)]
pub struct EventError {
    pub message: String,
}

/// The agent's currently pending desire, built from its commands and
/// partially consumed by the physical system every tick.
#[derive(Debug, Clone, Copy)]
pub struct Intent {
    pub direction: MovementDirection,
    pub distance: i64,
    pub attack: bool,
    pub turn_angle: i64,
    pub turn_head_angle: i64,
    pub turn_arms_angle: i64,
}

impl Intent {
    /// All numeric intent fields stay within [`INTENT_LIMIT`], which keeps
    /// every per-tick computation on them inside `i64`.
    pub open spec fn wf(self) -> bool {
        &&& -INTENT_LIMIT <= self.distance <= INTENT_LIMIT
        &&& -INTENT_LIMIT <= self.turn_angle <= INTENT_LIMIT
        &&& -INTENT_LIMIT <= self.turn_head_angle <= INTENT_LIMIT
        &&& -INTENT_LIMIT <= self.turn_arms_angle <= INTENT_LIMIT
    }
}

impl Default for Intent {
    /// The empty intent: no movement, no attack, no pending turns.
    fn default() -> (r: Self)
        ensures
            r.direction == MovementDirection::Forward,
            r.distance == 0,
            !r.attack,
            r.turn_angle == 0,
            r.turn_head_angle == 0,
            r.turn_arms_angle == 0,
    {
        Self {
            direction: MovementDirection::Forward,
            distance: 0,
            attack: false,
            turn_angle: 0,
            turn_head_angle: 0,
            turn_arms_angle: 0,
        }
    }
}

/// Per-round win statistics that persist across rounds within a game.
#[derive(Debug, Clone, Copy)]
pub struct Stats {
    pub rounds_won: u32,
}

/// The mutable physical state of one character, owned by the game loop and
/// changed only by the event-advancement step.
#[derive(Debug, Clone, Copy)]
pub struct State {
    pub hp: i64,
    pub pos: Point,
    pub heading: i64,
    pub head_heading: i64,
    pub arms_heading: i64,
    pub attack_cooldown: u8,
    pub stats: Stats,
}

impl State {
    /// Well-formedness: the heading is normalized, head and arms stay within
    /// the angle of action, hit points stay between zero (their floor) and
    /// the initial value, and the position lies inside the arena.
    pub open spec fn wf(self) -> bool {
        &&& 0 <= self.hp <= INITIAL_HP
        &&& 0 <= self.heading < TWO_PI
        &&& -ANGLE_OF_ACTION <= self.head_heading <= ANGLE_OF_ACTION
        &&& -ANGLE_OF_ACTION <= self.arms_heading <= ANGLE_OF_ACTION
        &&& 0 <= self.pos.x <= WIDTH
        &&& 0 <= self.pos.y <= HEIGHT
    }

    /// A fresh state: full hit points, at the origin, all headings zero.
    pub fn new() -> (r: Self)
        ensures
            r.hp == INITIAL_HP,
            r.pos == (Point { x: 0, y: 0 }),
            r.heading == 0,
            r.head_heading == 0,
            r.arms_heading == 0,
            r.attack_cooldown == 0,
            r.stats.rounds_won == 0,
    {
        Self {
            hp: INITIAL_HP,
            pos: Point::zero(),
            heading: 0,
            head_heading: 0,
            arms_heading: 0,
            attack_cooldown: 0,
            stats: Stats { rounds_won: 0 },
        }
    }

    /// Begins a new round at `next_pos`: full hit points, zeroed headings and
    /// attack cooldown, while win statistics persist.
    pub fn reset(&mut self, next_pos: Point)
        ensures
            final(self).hp == INITIAL_HP,
            final(self).pos == next_pos,
            final(self).heading == 0,
            final(self).head_heading == 0,
            final(self).arms_heading == 0,
            final(self).attack_cooldown == 0,
            final(self).stats == old(self).stats,
    {
        self.hp = INITIAL_HP;
        self.heading = 0;
        self.head_heading = 0;
        self.arms_heading = 0;
        self.attack_cooldown = 0;
        self.pos = next_pos;
    }

    /// The absolute direction the head points in: body heading plus head
    /// offset, normalized.
    pub fn effective_head_heading(&self) -> (r: i64)
        requires
            self.wf(),
        ensures
            r == crate::math_utils::spec_normalize_absolute_angle(
                self.heading + self.head_heading,
            ),
            0 <= r < TWO_PI,
    {
        crate::math_utils::normalize_absolute_angle(self.heading + self.head_heading)
    }

    /// The absolute direction the arms point in: body heading plus arms
    /// offset, normalized.
    pub fn effective_arms_heading(&self) -> (r: i64)
        requires
            self.wf(),
        ensures
            r == crate::math_utils::spec_normalize_absolute_angle(
                self.heading + self.arms_heading,
            ),
            0 <= r < TWO_PI,
    {
        crate::math_utils::normalize_absolute_angle(self.heading + self.arms_heading)
    }

    /// Whether the character is still alive: hit points strictly positive.
    pub fn alive(&self) -> (r: bool)
        ensures
            r == (self.hp > 0),
    {
        self.hp > 0
    }
}

/// The read-only snapshot of a character's own state handed to its adapter
/// with every tick event.
#[derive(Debug, Clone, Copy)]
pub struct CurrentCharacterState {
    pub x: i64,
    pub y: i64,
    pub hp: i64,
    pub heading: i64,
    pub head_heading: i64,
    pub arms_heading: i64,
    pub attack_cooldown: u8,
    pub turn_remaining: i64,
    pub head_turn_remaining: i64,
    pub arms_turn_remaining: i64,
}

/// The snapshot of `state` and the still-pending parts of `intent` that a
/// tick event hands to the owning agent.
pub open spec fn spec_snapshot(state: State, intent: Intent) -> CurrentCharacterState {
    CurrentCharacterState {
        x: state.pos.x,
        y: state.pos.y,
        hp: state.hp,
        heading: state.heading,
        head_heading: state.head_heading,
        arms_heading: state.arms_heading,
        attack_cooldown: state.attack_cooldown,
        turn_remaining: intent.turn_angle,
        head_turn_remaining: intent.turn_head_angle,
        arms_turn_remaining: intent.turn_arms_angle,
    }
}

impl CurrentCharacterState {
    /// Snapshots `state` together with the still-pending parts of `intent`.
    pub fn from_state(state: &State, intent: &Intent) -> (r: Self)
        ensures
            r == spec_snapshot(*state, *intent),
            r.x == state.pos.x,
            r.y == state.pos.y,
            r.hp == state.hp,
            r.heading == state.heading,
            r.head_heading == state.head_heading,
            r.arms_heading == state.arms_heading,
            r.attack_cooldown == state.attack_cooldown,
            r.turn_remaining == intent.turn_angle,
            r.head_turn_remaining == intent.turn_head_angle,
            r.arms_turn_remaining == intent.turn_arms_angle,
    {
        Self {
            x: state.pos.x,
            y: state.pos.y,
            hp: state.hp,
            heading: state.heading,
            head_heading: state.head_heading,
            arms_heading: state.arms_heading,
            attack_cooldown: state.attack_cooldown,
            turn_remaining: intent.turn_angle,
            head_turn_remaining: intent.turn_head_angle,
            arms_turn_remaining: intent.turn_arms_angle,
        }
    }
}

/// The character-facing projection of game events: what one agent gets to
/// see of a tick.
#[derive(Debug)]
pub enum Event {
    Tick(u32, CurrentCharacterState),
    RoundStarted(u32),
    RoundEnded(Option<Meta>),
    RoundDrawn,
    RoundWon,
    EnemySeen(String, Point),
    Death,
    EnemyDied(String),
    HitBy(Meta),
    AttackHit(Meta, Point),
}

/// The adapter contract every scripting backend implements: receive one
/// domain event, answer with zero or more commands or fail with a typed
/// error. An adapter may ignore any event kind by returning no commands.
pub trait Impl {
    fn on_event(&mut self, event: &Event) -> Result<Commands, EventError>;
}

/// One character as the game loop owns it: the backend adapter and the
/// currently pending intent.
pub struct Character<I> {
    pub implementation: I,
    pub intent: Intent,
}

impl<I: Impl> Character<I> {
    /// Wraps a backend adapter with an empty intent.
    pub fn new(implementation: I) -> (r: Self)
        ensures
            r.implementation == implementation,
            r.intent.distance == 0,
            r.intent.turn_angle == 0,
            r.intent.turn_head_angle == 0,
            r.intent.turn_arms_angle == 0,
            !r.intent.attack,
            r.intent.direction == MovementDirection::Forward,
    {
        Self { implementation, intent: Intent::default() }
    }
}

} // verus!
