use luarena::character::{
    Character, Command, Commands, Event, EventError, Id, Impl, Intent, Meta, MovementDirection,
    State,
};
use luarena::color::Color;
use luarena::game::{
    advance_game_state, check_for_round_end, create_attacks, game_events_to_character_events,
    reduce_commands, round_over, step, transition_attacks, transition_characters,
    transition_heads, update_intent, Attack, AttackId, AttackIds, CharacterEntry, EventManager,
    EventRemembrance, Game, GameEvent, Round, RoundState, Tick,
};
use luarena::math_utils::Point;
use luarena::settings::{ANGLE_OF_ACTION, INITIAL_HP, MAX_HEAD_TURN_RATE};

struct Idle;

impl Impl for Idle {
    fn on_event(&mut self, _event: &Event) -> Result<Commands, EventError> {
        Ok(Commands::none())
    }
}

fn meta(n: u128, name: &str) -> Meta {
    Meta {
        id: Id(n),
        name: name.to_string(),
        color: Color { red: 100, green: 100, blue: 100 },
        version: "1.0".to_string(),
        entrypoint: "main.lua".to_string(),
        instance: 1,
    }
}

fn two_character_game() -> Game<Idle> {
    let mut g: Game<Idle> = Game::new();
    let mut s1 = State::new();
    s1.pos = luarena::math_utils::Point { x: 800_000_000, y: 700_000_000 };
    let mut s2 = State::new();
    s2.pos = luarena::math_utils::Point { x: 800_000_000, y: 600_000_000 };
    g.characters.push(CharacterEntry { meta: meta(1, "alpha"), state: s1 });
    g.characters.push(CharacterEntry { meta: meta(2, "beta"), state: s2 });
    g.impls.push(Character::new(Idle));
    g.impls.push(Character::new(Idle));
    g
}

#[test]
fn command_priority_order_is_move_attack_turn() {
    let mut commands = vec![
        Command::Attack,
        Command::Move(MovementDirection::Forward, 5_000_000),
        Command::Turn(100_000),
    ];
    reduce_commands(&mut commands);
    assert_eq!(
        commands,
        vec![
            Command::Move(MovementDirection::Forward, 5_000_000),
            Command::Attack,
            Command::Turn(100_000),
        ]
    );
}

#[test]
fn head_turn_is_clamped_to_rate() {
    let state = State::new();
    let mut em = EventManager::new(EventRemembrance::Forget);
    transition_heads(&meta(1, "alpha"), &state, 10_000_000, &mut em);
    let events = &em.current_events().events;
    assert_eq!(events.len(), 1);
    match &events[0] {
        GameEvent::CharacterHeadTurned(_, delta) => assert_eq!(*delta, MAX_HEAD_TURN_RATE),
        other => panic!("unexpected event {:?}", other),
    }
}

#[test]
fn every_living_character_gets_one_position_update() {
    let g = two_character_game();
    let mut em = EventManager::new(EventRemembrance::Forget);
    transition_characters(&g, &mut em);
    for m in ["alpha", "beta"] {
        let count = em
            .current_events()
            .events
            .iter()
            .filter(|e| {
                matches!(e, GameEvent::CharacterPositionUpdated(id, _) if id.name == m)
            })
            .count();
        assert_eq!(count, 1, "character {m}");
    }
}

#[test]
fn round_ends_with_single_survivor() {
    let mut g = two_character_game();
    g.characters[1].state.hp = 0;
    let mut em = EventManager::new(EventRemembrance::Forget);
    check_for_round_end(&g, &mut em);
    let events = &em.current_events().events;
    assert_eq!(events.len(), 1);
    match &events[0] {
        GameEvent::RoundEnded(Some(w)) => assert_eq!(w.name, "alpha"),
        other => panic!("unexpected event {:?}", other),
    }
}

#[test]
fn round_ends_in_draw_with_no_survivor() {
    let mut g = two_character_game();
    g.characters[0].state.hp = 0;
    g.characters[1].state.hp = 0;
    let mut em = EventManager::new(EventRemembrance::Forget);
    check_for_round_end(&g, &mut em);
    let events = &em.current_events().events;
    assert_eq!(events.len(), 1);
    assert!(matches!(&events[0], GameEvent::RoundEnded(None)));
}

#[test]
fn no_round_end_with_two_survivors() {
    let g = two_character_game();
    let mut em = EventManager::new(EventRemembrance::Forget);
    check_for_round_end(&g, &mut em);
    assert!(em.current_events().events.is_empty());
}

#[test]
fn hit_event_reduces_hp_and_win_is_counted() {
    let mut g = two_character_game();
    g.attacks.push(luarena::game::Attack {
        id: AttackId(0),
        pos: luarena::math_utils::Point { x: 800_000_000, y: 650_000_000 },
        owner: meta(1, "alpha"),
        heading: 0,
        velocity: 2_500_000,
    });
    let events = vec![
        GameEvent::Hit(
            AttackId(0),
            meta(1, "alpha"),
            meta(2, "beta"),
            luarena::math_utils::Point { x: 800_000_000, y: 620_000_000 },
        ),
        GameEvent::RoundEnded(Some(meta(1, "alpha"))),
    ];
    advance_game_state(&mut g, &events);
    assert_eq!(g.characters[1].state.hp, INITIAL_HP - 10_000_000);
    assert!(g.attacks.is_empty());
    assert!(matches!(&g.round_state, RoundState::Won(w) if w.name == "alpha"));
    assert_eq!(g.characters[0].state.stats.rounds_won, 1);
}

#[test]
fn tick_event_advances_tick_and_cooldowns() {
    let mut g = two_character_game();
    g.characters[0].state.attack_cooldown = 5;
    let events = vec![GameEvent::Tick(Tick(0))];
    advance_game_state(&mut g, &events);
    assert_eq!(g.tick.0, 1);
    assert_eq!(g.characters[0].state.attack_cooldown, 4);
    assert_eq!(g.characters[1].state.attack_cooldown, 0);
}

#[test]
fn forget_mode_keeps_no_history() {
    let mut em = EventManager::new(EventRemembrance::Forget);
    em.init_round(Round(1), Vec::new());
    em.init_tick(Tick(0));
    em.init_tick(Tick(1));
    assert!(em.all_events().is_empty());
}

#[test]
fn remember_mode_archives_batches() {
    let mut em = EventManager::new(EventRemembrance::Remember);
    em.init_round(Round(1), Vec::new());
    em.init_tick(Tick(0));
    assert_eq!(em.current_events().events.len(), 2);
    em.init_tick(Tick(1));
    assert_eq!(em.all_events().len(), 2);
    assert_eq!(em.current_events().events.len(), 1);
}

#[test]
fn attack_ids_are_monotonic() {
    let mut ids = AttackIds::new();
    let a = ids.next();
    let b = ids.next();
    assert_eq!(a, AttackId(0));
    assert_eq!(b, AttackId(1));
}

#[test]
fn tick_advance_increments() {
    let mut t = Tick(7);
    t.advance();
    assert_eq!(t.0, 8);
}

#[test]
fn identical_inputs_give_identical_event_batches() {
    let run = || {
        let g = two_character_game();
        let mut em = EventManager::new(EventRemembrance::Forget);
        em.init_round(Round(1), Vec::new());
        em.init_tick(Tick(0));
        check_for_round_end(&g, &mut em);
        transition_characters(&g, &mut em);
        format!("{:?}", em.current_events())
    };
    assert_eq!(run(), run());
}

#[test]
fn default_intent_is_empty() {
    let i = Intent::default();
    assert_eq!(i.distance, 0);
    assert!(!i.attack);
    assert_eq!(i.turn_angle, 0);
}

#[test]
fn ready_attacker_spawns_one_projectile() {
    let mut g = two_character_game();
    g.impls[0].intent.attack = true;
    let mut ids = AttackIds::new();
    let mut em = EventManager::new(EventRemembrance::Forget);
    create_attacks(&g, &mut ids, &mut em);
    let events = &em.current_events().events;
    assert_eq!(events.len(), 1);
    match &events[0] {
        GameEvent::AttackCreated(owner, a) => {
            assert_eq!(owner.name, "alpha");
            assert_eq!(a.id, AttackId(0));
            assert_eq!(a.pos, Point { x: 800_000_000, y: 700_000_000 });
            assert_eq!(a.velocity, 2_500_000);
            assert_eq!(a.heading, 0);
        }
        other => panic!("unexpected event {:?}", other),
    }
    assert_eq!(ids.next, 1);
}

#[test]
fn no_projectile_during_cooldown_or_without_request() {
    let mut g = two_character_game();
    g.impls[0].intent.attack = true;
    g.characters[0].state.attack_cooldown = 5;
    let mut ids = AttackIds::new();
    let mut em = EventManager::new(EventRemembrance::Forget);
    create_attacks(&g, &mut ids, &mut em);
    assert!(em.current_events().events.is_empty());
    assert_eq!(ids.next, 0);
}

#[test]
fn attack_misses_when_leaving_arena() {
    let mut g = two_character_game();
    g.attacks.push(Attack {
        id: AttackId(7),
        pos: Point { x: 800_000_000, y: 1_000_000 },
        owner: meta(1, "alpha"),
        heading: 0,
        velocity: 2_500_000,
    });
    let mut em = EventManager::new(EventRemembrance::Forget);
    transition_attacks(&g, &mut em);
    let events = &em.current_events().events;
    assert_eq!(events.len(), 1);
    assert!(matches!(&events[0], GameEvent::AttackMissed(AttackId(7))));
}

#[test]
fn attack_hits_victim_in_range_and_reports_death() {
    let mut g = two_character_game();
    g.characters[1].state.pos = Point { x: 800_000_000, y: 600_000_000 };
    g.characters[1].state.hp = 10_000_000;
    g.attacks.push(Attack {
        id: AttackId(3),
        pos: Point { x: 800_000_000, y: 620_000_000 },
        owner: meta(1, "alpha"),
        heading: 0,
        velocity: 2_500_000,
    });
    let mut em = EventManager::new(EventRemembrance::Forget);
    transition_attacks(&g, &mut em);
    let events = &em.current_events().events;
    assert_eq!(events.len(), 2);
    match &events[0] {
        GameEvent::Hit(id, owner, victim, p) => {
            assert_eq!(*id, AttackId(3));
            assert_eq!(owner.name, "alpha");
            assert_eq!(victim.name, "beta");
            assert_eq!(*p, Point { x: 800_000_000, y: 617_500_000 });
        }
        other => panic!("unexpected event {:?}", other),
    }
    assert!(matches!(&events[1], GameEvent::CharacterDied(m) if m.name == "beta"));
}

#[test]
fn attack_advances_when_nobody_is_in_range() {
    let mut g = two_character_game();
    g.attacks.push(Attack {
        id: AttackId(0),
        pos: Point { x: 200_000_000, y: 200_000_000 },
        owner: meta(1, "alpha"),
        heading: 0,
        velocity: 2_500_000,
    });
    let mut em = EventManager::new(EventRemembrance::Forget);
    transition_attacks(&g, &mut em);
    let events = &em.current_events().events;
    assert_eq!(events.len(), 1);
    assert!(matches!(
        &events[0],
        GameEvent::AttackAdvanced(AttackId(0), p) if *p == Point { x: 200_000_000, y: 197_500_000 }
    ));
}

#[test]
fn hp_has_a_floor_of_zero() {
    let mut g = two_character_game();
    g.characters[1].state.hp = 5_000_000;
    let events = vec![GameEvent::Hit(
        AttackId(0),
        meta(1, "alpha"),
        meta(2, "beta"),
        Point { x: 800_000_000, y: 620_000_000 },
    )];
    advance_game_state(&mut g, &events);
    assert_eq!(g.characters[1].state.hp, 0);
}

#[test]
fn reset_restores_hp_and_zeroes_cooldown_but_keeps_stats() {
    let mut s = State::new();
    s.hp = 1;
    s.attack_cooldown = 7;
    s.heading = 3;
    s.stats.rounds_won = 4;
    s.reset(Point { x: 100_000_000, y: 200_000_000 });
    assert_eq!(s.hp, INITIAL_HP);
    assert_eq!(s.attack_cooldown, 0);
    assert_eq!(s.heading, 0);
    assert_eq!(s.stats.rounds_won, 4);
    assert_eq!(s.pos, Point { x: 100_000_000, y: 200_000_000 });
}

#[test]
fn hit_projects_to_victim_and_owner_only() {
    let m1 = meta(1, "alpha");
    let m2 = meta(2, "beta");
    let m3 = meta(3, "gamma");
    let state = State::new();
    let intent = Intent::default();
    let events = vec![GameEvent::Hit(
        AttackId(0),
        meta(1, "alpha"),
        meta(2, "beta"),
        Point { x: 1, y: 2 },
    )];
    let to_owner = game_events_to_character_events(&m1, &state, &intent, &events);
    assert_eq!(to_owner.len(), 1);
    assert!(matches!(&to_owner[0], Event::AttackHit(v, _) if v.name == "beta"));
    let to_victim = game_events_to_character_events(&m2, &state, &intent, &events);
    assert_eq!(to_victim.len(), 1);
    assert!(matches!(&to_victim[0], Event::HitBy(o) if o.name == "alpha"));
    let to_bystander = game_events_to_character_events(&m3, &state, &intent, &events);
    assert!(to_bystander.is_empty());
}

#[test]
fn round_end_projects_win_and_draw_notices() {
    let m1 = meta(1, "alpha");
    let m2 = meta(2, "beta");
    let state = State::new();
    let intent = Intent::default();
    let won = vec![GameEvent::RoundEnded(Some(meta(1, "alpha")))];
    let to_winner = game_events_to_character_events(&m1, &state, &intent, &won);
    assert_eq!(to_winner.len(), 2);
    assert!(matches!(&to_winner[1], Event::RoundWon));
    let to_loser = game_events_to_character_events(&m2, &state, &intent, &won);
    assert_eq!(to_loser.len(), 1);
    let drawn = vec![GameEvent::RoundEnded(None)];
    let to_anyone = game_events_to_character_events(&m1, &state, &intent, &drawn);
    assert_eq!(to_anyone.len(), 2);
    assert!(matches!(&to_anyone[1], Event::RoundDrawn));
}

#[test]
fn death_projects_as_own_or_enemy_death() {
    let m1 = meta(1, "alpha");
    let m2 = meta(2, "beta");
    let state = State::new();
    let intent = Intent::default();
    let events = vec![GameEvent::CharacterDied(meta(2, "beta"))];
    let to_deceased = game_events_to_character_events(&m2, &state, &intent, &events);
    assert!(matches!(&to_deceased[0], Event::Death));
    let to_other = game_events_to_character_events(&m1, &state, &intent, &events);
    assert!(matches!(&to_other[0], Event::EnemyDied(n) if n == "beta"));
}

#[test]
fn commands_fold_into_intent_in_priority_order() {
    let mut commands = vec![
        Command::Attack,
        Command::Move(MovementDirection::Forward, 5_000_000),
        Command::Turn(100_000),
    ];
    reduce_commands(&mut commands);
    let state = State::new();
    let mut intent = Intent::default();
    update_intent(&mut intent, &state, &commands);
    assert!(intent.attack);
    assert_eq!(intent.distance, 5_000_000);
    assert_eq!(intent.turn_angle, 100_000);
    assert_eq!(intent.direction, MovementDirection::Forward);
}

#[test]
fn equal_priority_commands_keep_their_order() {
    let mut commands = vec![
        Command::Turn(1),
        Command::Move(MovementDirection::Left, 2),
        Command::Turn(3),
        Command::Move(MovementDirection::Right, 4),
    ];
    reduce_commands(&mut commands);
    assert_eq!(
        commands,
        vec![
            Command::Move(MovementDirection::Left, 2),
            Command::Move(MovementDirection::Right, 4),
            Command::Turn(1),
            Command::Turn(3),
        ]
    );
}

#[test]
fn head_turn_command_is_clamped_into_angle_of_action() {
    let state = State::new();
    let mut intent = Intent::default();
    update_intent(&mut intent, &state, &vec![Command::TurnHead(10_000_000)]);
    assert_eq!(intent.turn_head_angle, ANGLE_OF_ACTION);
}

#[test]
fn init_round_resets_characters_and_seeds_placements() {
    let mut g = two_character_game();
    g.characters[0].state.hp = 1;
    g.characters[0].state.attack_cooldown = 9;
    g.characters[0].state.stats.rounds_won = 2;
    g.impls[0].intent.attack = true;
    g.attacks.push(Attack {
        id: AttackId(0),
        pos: Point { x: 200_000_000, y: 200_000_000 },
        owner: meta(1, "alpha"),
        heading: 0,
        velocity: 2_500_000,
    });
    let mut em = EventManager::new(EventRemembrance::Forget);
    g.init_round(Round(3), &mut em);
    assert_eq!(g.round, Round(3));
    assert_eq!(g.tick.0, 0);
    assert!(g.attacks.is_empty());
    for c in &g.characters {
        assert_eq!(c.state.hp, INITIAL_HP);
        assert_eq!(c.state.attack_cooldown, 0);
        assert_eq!(c.state.heading, 0);
    }
    assert_eq!(g.characters[0].state.stats.rounds_won, 2);
    assert!(!g.impls[0].intent.attack);
    let events = &em.current_events().events;
    assert_eq!(events.len(), 1);
    match &events[0] {
        GameEvent::RoundStarted(r, ps) => {
            assert_eq!(*r, Round(3));
            assert_eq!(ps.len(), 2);
            assert_eq!(ps[0].meta.name, "alpha");
            assert_eq!(ps[0].pos, g.characters[0].state.pos);
            assert_eq!(ps[1].meta.name, "beta");
            assert_eq!(ps[1].pos, g.characters[1].state.pos);
        }
        other => panic!("unexpected event {:?}", other),
    }
    let min = 45_000_000;
    for c in &g.characters {
        assert!(c.state.pos.x >= min && c.state.pos.x <= 1_600_000_000 - min);
        assert!(c.state.pos.y >= min && c.state.pos.y <= 1_200_000_000 - min);
    }
    let dx = (g.characters[0].state.pos.x - g.characters[1].state.pos.x) as i128;
    let dy = (g.characters[0].state.pos.y - g.characters[1].state.pos.y) as i128;
    assert!(dx * dx + dy * dy > 4 * 25_000_000i128 * 25_000_000i128);
}

#[test]
fn duplicate_scripts_get_distinct_instances() {
    let mut g: Game<Idle> = Game::new();
    g.add_character(meta(1, "alpha"), Idle).unwrap();
    g.add_character(meta(1, "alpha"), Idle).unwrap();
    g.add_character(meta(1, "alpha"), Idle).unwrap();
    assert_eq!(g.characters.len(), 3);
    assert_eq!(g.characters[0].meta.instance, 1);
    assert_eq!(g.characters[1].meta.instance, 2);
    assert_eq!(g.characters[2].meta.instance, 3);
    assert_eq!(g.characters[0].state.hp, INITIAL_HP);
}

#[test]
fn step_gives_every_living_character_one_update_per_kind() {
    let mut g = two_character_game();
    let mut em = EventManager::new(EventRemembrance::Forget);
    let r = step(&mut g, &mut em);
    assert!(r.is_ok());
    assert_eq!(g.tick.0, 1);
    for m in ["alpha", "beta"] {
        let pos = em
            .current_events()
            .events
            .iter()
            .filter(|e| matches!(e, GameEvent::CharacterPositionUpdated(id, _) if id.name == m))
            .count();
        assert_eq!(pos, 1, "position updates for {m}");
        let turns = em
            .current_events()
            .events
            .iter()
            .filter(|e| matches!(e, GameEvent::CharacterTurned(id, _) if id.name == m))
            .count();
        assert_eq!(turns, 1, "body turns for {m}");
    }
    assert!(matches!(g.round_state, RoundState::Ongoing));
    assert!(!round_over(&g));
}

enum Script {
    Attacker,
    Idle,
}

impl Impl for Script {
    fn on_event(&mut self, _event: &Event) -> Result<Commands, EventError> {
        match self {
            Script::Attacker => Ok(Commands::from(vec![Command::Attack])),
            Script::Idle => Ok(Commands::none()),
        }
    }
}

#[test]
fn attacker_exhausts_defender_and_wins_the_round() {
    let mut g: Game<Script> = Game::new();
    let mut s1 = State::new();
    s1.pos = Point { x: 800_000_000, y: 700_000_000 };
    let mut s2 = State::new();
    s2.pos = Point { x: 800_000_000, y: 600_000_000 };
    g.characters.push(CharacterEntry { meta: meta(1, "gunner"), state: s1 });
    g.characters.push(CharacterEntry { meta: meta(2, "pacifist"), state: s2 });
    g.impls.push(Character::new(Script::Attacker));
    g.impls.push(Character::new(Script::Idle));
    let mut em = EventManager::new(EventRemembrance::Forget);
    let mut round_ended_events = 0;
    let mut ticks = 0;
    while !round_over(&g) {
        step(&mut g, &mut em).unwrap();
        round_ended_events += em
            .current_events()
            .events
            .iter()
            .filter(|e| matches!(e, GameEvent::RoundEnded(_)))
            .count();
        ticks += 1;
        assert!(ticks < 20_000, "the round should end");
    }
    assert_eq!(round_ended_events, 1);
    assert!(matches!(&g.round_state, RoundState::Won(w) if w.name == "gunner"));
    assert_eq!(g.characters[0].state.stats.rounds_won, 1);
    assert_eq!(g.characters[1].state.hp, 0);
    assert_eq!(g.characters[0].state.hp, INITIAL_HP);
}
