use wizard_arena::actions::Action;
use wizard_arena::entity::{Entity, EntityType, Faction};
use wizard_arena::spells::SpellType;
use wizard_arena::state::{Goal, TurnState};
use wizard_arena::vec2::Vec2;

fn wiz(id: usize, x: i64, y: i64) -> Entity {
    let faction = if id < 2 { Faction::Me } else { Faction::Enemy };
    Entity::new_wizard(id, id % 2, Vec2 { x, y }, Vec2 { x: 0, y: 0 }, faction, None)
}

fn snaf(id: usize, x: i64, y: i64, vx: i64, vy: i64) -> Entity {
    Entity::new_snaffle(id, id - 4, Vec2 { x, y }, Vec2 { x: vx, y: vy })
}

fn blud(id: usize, sub: usize, x: i64, y: i64) -> Entity {
    Entity::new_bludger(id, sub, Vec2 { x, y }, Vec2 { x: 0, y: 0 })
}

/// Four wizards parked in the corners, away from the action.
fn far_wizards() -> Vec<Entity> {
    vec![
        wiz(0, 1500, 6800),
        wiz(1, 2500, 6800),
        wiz(2, 13500, 6800),
        wiz(3, 14500, 6800),
    ]
}

fn idle_actions() -> Vec<Action> {
    // Aiming at the wizard's own position applies no thrust.
    vec![Action::Move(Vec2 { x: 0, y: 0 }, 0), Action::Move(Vec2 { x: 0, y: 0 }, 0)]
}

#[test]
fn end_to_end_two_snaffles_swap_velocities() {
    // Two snaffles 500 apart closing at 600 units per turn meet a third of
    // the way through the window, swap velocities (momentum stays zero),
    // and carry on; friction then scales both by 3/4 and every component
    // ends the turn as an integer.
    let snaffles = vec![snaf(4, 7000, 3000, 300, 0), snaf(5, 7500, 3000, -300, 0)];
    let bludgers = vec![blud(6, 0, 7450, 400), blud(7, 1, 8550, 400)];
    let mut st = TurnState::from_vecs(far_wizards(), snaffles, bludgers);
    let stats = st.simulate(&idle_actions(), &idle_actions());
    let a = st.entities.inner[4];
    let b = st.entities.inner[5];
    assert_eq!(a.vel, Vec2 { x: -225, y: 0 });
    assert_eq!(b.vel, Vec2 { x: 225, y: 0 });
    assert_eq!(a.pos, Vec2 { x: 6900, y: 3000 });
    assert_eq!(b.pos, Vec2 { x: 7600, y: 3000 });
    // Net momentum of the pair stays zero (equal masses).
    assert_eq!(a.vel.x + b.vel.x, 0);
    assert_eq!(a.vel.y + b.vel.y, 0);
    // The pair's contact is the turn's only resolved pair event, and no
    // pickup happened.
    assert_eq!(stats.collisions, vec![(4, 5)]);
    assert_eq!(stats.collected, vec![]);
}

#[test]
fn momentum_conserved_by_collision_response() {
    // A direct response between a snaffle and a bludger: the mass-weighted
    // velocity sum (in half-mass units) is identical before and after.
    let snaffles = vec![snaf(4, 7000, 3000, 400, 0)];
    let bludgers = vec![blud(6 - 1, 0, 7400, 3000), blud(7 - 1, 1, 10550, 400)];
    let mut st = TurnState::from_vecs(far_wizards(), snaffles, bludgers);
    let mut stats = wizard_arena::state::Stats {
        collisions: Vec::new(),
        collected: Vec::new(),
        my_score_gain: 0,
        enemy_score_gain: 0,
    };
    let ea = st.entities.inner[4];
    let eb = st.entities.inner[5];
    let ma = ea.kind.mass_x2();
    let mb = eb.kind.mass_x2();
    let before_x = ma * ea.vel.x + mb * eb.vel.x;
    let before_y = ma * ea.vel.y + mb * eb.vel.y;
    st.collision_response(&mut stats, 4, 5);
    let fa = st.entities.inner[4];
    let fb = st.entities.inner[5];
    assert_eq!(ma * fa.vel.x + mb * fb.vel.x, before_x);
    assert_eq!(ma * fa.vel.y + mb * fb.vel.y, before_y);
    // The response actually moved momentum between the two bodies.
    assert_ne!(fa.vel, ea.vel);
}

#[test]
fn pickup_establishes_symmetric_link() {
    // A snaffle drifting into a free wizard is picked up: both point at
    // each other, the wizard's cooldown starts, and the pickup is
    // reported.
    let mut wizards = far_wizards();
    wizards[0] = wiz(0, 8000, 3750);
    let snaffles = vec![snaf(4, 8300, 3750, -100, 0)];
    let bludgers = vec![blud(5, 0, 1000, 400), blud(6, 1, 15000, 400)];
    let mut st = TurnState::from_vecs(wizards, snaffles, bludgers);
    let stats = st.simulate(&idle_actions(), &idle_actions());
    let w = st.entities.inner[0];
    let s = st.entities.inner[4];
    assert_eq!(w.linked, Some(4));
    assert_eq!(s.linked, Some(0));
    assert_eq!(w.snaffle_timeout, 3);
    assert!(stats.collected.contains(&(0, 4)));
    // The snaffle snapped to its holder.
    assert_eq!(s.pos, w.pos);
    assert_eq!(s.vel, w.vel);
}

#[test]
fn possession_symmetry_holds_across_turns() {
    let mut wizards = far_wizards();
    wizards[0] = wiz(0, 8000, 3750);
    let snaffles = vec![snaf(4, 8300, 3750, -100, 0)];
    let bludgers = vec![blud(5, 0, 1000, 400), blud(6, 1, 15000, 400)];
    let mut st = TurnState::from_vecs(wizards, snaffles, bludgers);
    for _ in 0..3 {
        if st.winner.is_some() {
            break;
        }
        st.simulate(&idle_actions(), &idle_actions());
        for i in 0..st.entities.inner.len() {
            let e = st.entities.inner[i];
            if let Some(j) = e.linked {
                if e.kind == EntityType::Wizard {
                    assert_eq!(st.entities.inner[j].linked, Some(i));
                }
                if e.kind == EntityType::Snaffle {
                    assert_eq!(st.entities.inner[j].linked, Some(i));
                }
            }
        }
    }
}

#[test]
fn entity_count_never_changes() {
    let snaffles = vec![snaf(4, 7000, 3000, 300, 0), snaf(5, 9000, 4000, 0, 0)];
    let bludgers = vec![blud(6, 0, 7450, 3750), blud(7, 1, 8550, 3750)];
    let mut st = TurnState::from_vecs(far_wizards(), snaffles, bludgers);
    let n = st.entities.inner.len();
    for _ in 0..4 {
        if st.winner.is_some() {
            break;
        }
        st.simulate(&idle_actions(), &idle_actions());
        assert_eq!(st.entities.inner.len(), n);
    }
}

#[test]
fn quantization_components_are_integers() {
    // The engine stores positions and velocities as integers by
    // construction; a turn with thrust, collision and friction still ends
    // on exact integer values.
    let snaffles = vec![snaf(4, 7000, 3000, 299, 17), snaf(5, 7500, 3010, -301, -13)];
    let bludgers = vec![blud(6, 0, 7450, 400), blud(7, 1, 8550, 400)];
    let mut st = TurnState::from_vecs(far_wizards(), snaffles, bludgers);
    st.simulate(&idle_actions(), &idle_actions());
    for e in st.entities.inner.iter() {
        // i64 components: representable exactly; nothing fractional can
        // survive a turn.
        let _: i64 = e.pos.x;
        let _: i64 = e.vel.y;
    }
}

#[test]
fn flip_twice_restores_the_state() {
    let snaffles = vec![snaf(4, 7000, 3000, 300, 0)];
    let bludgers = vec![blud(5, 0, 7450, 3750), blud(6, 1, 8550, 3750)];
    let mut st = TurnState::from_vecs(far_wizards(), snaffles, bludgers);
    st.my_mp = 40;
    st.enemy_mp = 70;
    st.my_score = 2;
    st.enemy_score = 1;
    let before_entities: Vec<Entity> = st.entities.inner.clone();
    let before = (st.round, st.my_id, st.my_mp, st.enemy_mp, st.my_score, st.enemy_score);
    st.invert();
    assert_eq!(st.my_id, 1);
    assert_eq!(st.my_mp, 70);
    assert_eq!(st.my_score, 1);
    assert_eq!(st.entities.inner[0].faction, Faction::Enemy);
    st.invert();
    assert_eq!(
        (st.round, st.my_id, st.my_mp, st.enemy_mp, st.my_score, st.enemy_score),
        before
    );
    for (e, f) in st.entities.inner.iter().zip(before_entities.iter()) {
        assert_eq!(e.pos, f.pos);
        assert_eq!(e.vel, f.vel);
        assert_eq!(e.faction, f.faction);
        assert_eq!(e.linked, f.linked);
        assert_eq!(e.dead, f.dead);
    }
}

#[test]
fn round_two_hundred_higher_score_wins() {
    let snaffles = vec![snaf(4, 7000, 3000, 0, 0)];
    let bludgers = vec![blud(5, 0, 7450, 3750), blud(6, 1, 8550, 3750)];
    let mut st = TurnState::from_vecs(far_wizards(), snaffles, bludgers);
    st.round = 200;
    st.my_score = 3;
    st.enemy_score = 2;
    st.my_mp = 55;
    st.enemy_mp = 66;
    st.simulate(&idle_actions(), &idle_actions());
    assert_eq!(st.winner, Some(Faction::Me));
    assert_eq!(st.round, 200);
    // Once a winner is set this turn, mana is left unchanged.
    assert_eq!(st.my_mp, 55);
    assert_eq!(st.enemy_mp, 66);
}

#[test]
fn round_two_hundred_equal_scores_draw() {
    let snaffles = vec![snaf(4, 7000, 3000, 0, 0)];
    let bludgers = vec![blud(5, 0, 7450, 3750), blud(6, 1, 8550, 3750)];
    let mut st = TurnState::from_vecs(far_wizards(), snaffles, bludgers);
    st.round = 200;
    st.my_score = 3;
    st.enemy_score = 3;
    st.simulate(&idle_actions(), &idle_actions());
    assert_eq!(st.winner, Some(Faction::Neutral));
}

#[test]
fn majority_of_snaffles_wins_early() {
    // One snaffle in the match: a single point is already more than half.
    let snaffles = vec![snaf(4, 7000, 3000, 0, 0)];
    let bludgers = vec![blud(5, 0, 7450, 3750), blud(6, 1, 8550, 3750)];
    let mut st = TurnState::from_vecs(far_wizards(), snaffles, bludgers);
    st.my_score = 1;
    st.simulate(&idle_actions(), &idle_actions());
    assert_eq!(st.winner, Some(Faction::Me));
    assert_eq!(st.round, 0);
}

#[test]
fn goal_crossing_scores_and_removes_the_snaffle() {
    // A snaffle flying through the right goal mouth: side 0 owns the left
    // goal, so a right-line crossing is a point for side 0.
    let snaffles = vec![snaf(4, 15800, 3750, 600, 0), snaf(5, 7000, 1000, 0, 0)];
    let bludgers = vec![blud(6, 0, 7450, 6000), blud(7, 1, 8550, 6000)];
    let mut st = TurnState::from_vecs(far_wizards(), snaffles, bludgers);
    let stats = st.simulate(&idle_actions(), &idle_actions());
    assert!(st.entities.inner[4].dead);
    assert_eq!(st.my_score, 1);
    assert_eq!(stats.my_score_gain, 1);
    assert_eq!(stats.enemy_score_gain, 0);
}

#[test]
fn mana_and_round_advance_with_cap() {
    let snaffles = vec![snaf(4, 7000, 3000, 0, 0)];
    let bludgers = vec![blud(5, 0, 7450, 3750), blud(6, 1, 8550, 3750)];
    let mut st = TurnState::from_vecs(far_wizards(), snaffles, bludgers);
    st.my_mp = 100;
    st.enemy_mp = 42;
    st.simulate(&idle_actions(), &idle_actions());
    assert_eq!(st.round, 1);
    assert_eq!(st.winner, None);
    assert_eq!(st.my_mp, 100);
    assert_eq!(st.enemy_mp, 43);
}

#[test]
fn casting_deducts_mana_and_records_the_effect() {
    let snaffles = vec![snaf(4, 8000, 3750, 0, 0)];
    let bludgers = vec![blud(5, 0, 1000, 400), blud(6, 1, 15000, 400)];
    let mut wizards = far_wizards();
    wizards[0] = wiz(0, 7000, 3750);
    let mut st = TurnState::from_vecs(wizards, snaffles, bludgers);
    st.my_mp = 50;
    let acts = vec![
        Action::Spell(SpellType::Flipendo, 4),
        Action::Move(Vec2 { x: 0, y: 0 }, 0),
    ];
    st.simulate(&acts, &idle_actions());
    // Cost 20 deducted, then the per-turn gain of 1.
    assert_eq!(st.my_mp, 31);
    assert_eq!(st.active_spells.len(), 1);
    assert_eq!(st.active_spells[0].kind, SpellType::Flipendo);
    assert_eq!(st.active_spells[0].caster_id, 0);
    assert_eq!(st.active_spells[0].target_id, 4);
    assert_eq!(st.active_spells[0].casted, 0);
}

#[test]
fn flipendo_pushes_with_capped_power() {
    // Distance 1000 gives a raw magnitude of 6000, capped at 1000; the
    // snaffle (half mass) gains 2000 units of velocity away from the
    // caster, scaled to 1500 by friction at the end of the next turn.
    let snaffles = vec![snaf(4, 8000, 3750, 0, 0)];
    let bludgers = vec![blud(5, 0, 1000, 400), blud(6, 1, 15000, 400)];
    let mut wizards = far_wizards();
    wizards[0] = wiz(0, 7000, 3750);
    let mut st = TurnState::from_vecs(wizards, snaffles, bludgers);
    st.my_mp = 50;
    let acts = vec![
        Action::Spell(SpellType::Flipendo, 4),
        Action::Move(Vec2 { x: 0, y: 0 }, 0),
    ];
    st.simulate(&acts, &idle_actions());
    // The force applies on the following turn, while the effect is live.
    st.simulate(&idle_actions(), &idle_actions());
    let s = st.entities.inner[4];
    assert_eq!(s.pos, Vec2 { x: 10000, y: 3750 });
    assert_eq!(s.vel, Vec2 { x: 1500, y: 0 });
}

#[test]
fn accio_at_zero_distance_restarts_its_clock() {
    // The documented quirk: an Accio whose caster and target coincide
    // resets the effect's cast round to zero instead of pulling.
    let snaffles = vec![snaf(4, 8000, 3750, 0, 0)];
    let bludgers = vec![blud(5, 0, 1000, 400), blud(6, 1, 15000, 400)];
    let mut st = TurnState::from_vecs(far_wizards(), snaffles, bludgers);
    st.my_mp = 50;
    st.round = 2;
    // The wizard targets itself: distance is exactly zero every turn.
    let acts = vec![
        Action::Spell(SpellType::Accio, 0),
        Action::Move(Vec2 { x: 0, y: 0 }, 0),
    ];
    st.simulate(&acts, &idle_actions());
    assert_eq!(st.active_spells[0].casted, 2);
    st.simulate(&idle_actions(), &idle_actions());
    assert_eq!(st.active_spells[0].kind, SpellType::Accio);
    assert_eq!(st.active_spells[0].casted, 0);
}

#[test]
fn petrificus_freezes_and_goes_to_the_front() {
    let snaffles = vec![snaf(4, 8000, 3750, 500, 200)];
    let bludgers = vec![blud(5, 0, 1000, 400), blud(6, 1, 15000, 400)];
    let mut wizards = far_wizards();
    wizards[0] = wiz(0, 4000, 3000);
    wizards[1] = wiz(1, 5000, 3000);
    let mut st = TurnState::from_vecs(wizards, snaffles, bludgers);
    st.my_mp = 100;
    let acts = vec![
        Action::Spell(SpellType::Flipendo, 4),
        Action::Spell(SpellType::Petrificus, 4),
    ];
    st.simulate(&acts, &idle_actions());
    // Petrificus was cast second but stands first in the ledger.
    assert_eq!(st.active_spells.len(), 2);
    assert_eq!(st.active_spells[0].kind, SpellType::Petrificus);
    assert_eq!(st.active_spells[1].kind, SpellType::Flipendo);
}

#[test]
fn bludger_homes_on_nearest_wizard() {
    // Wizards at their starting posts, bludgers at the centre: the first
    // bludger's nearest wizard is the first one; thrust 1000 against mass
    // 8 and then friction 9/10 give the exact velocity below.
    let wizards = vec![
        wiz(0, 1000, 5250),
        wiz(1, 1000, 2250),
        wiz(2, 15000, 2250),
        wiz(3, 15000, 5250),
    ];
    let snaffles = vec![snaf(4, 2000, 1000, 0, 0)];
    let bludgers = vec![blud(5, 0, 7450, 3750), blud(6, 1, 8550, 3750)];
    let mut st = TurnState::from_vecs(wizards, snaffles, bludgers);
    st.simulate(&idle_actions(), &idle_actions());
    let b = st.entities.inner[5];
    assert_eq!(b.pos, Vec2 { x: 7328, y: 3778 });
    assert_eq!(b.vel, Vec2 { x: -110, y: 25 });
}

#[test]
fn throw_releases_the_snaffle() {
    // Pick the snaffle up on the first turn, throw it on the second: the
    // link is cleared on both sides.
    let mut wizards = far_wizards();
    wizards[0] = wiz(0, 8000, 3750);
    let snaffles = vec![snaf(4, 8300, 3750, -100, 0)];
    let bludgers = vec![blud(5, 0, 1000, 400), blud(6, 1, 15000, 400)];
    let mut st = TurnState::from_vecs(wizards, snaffles, bludgers);
    st.simulate(&idle_actions(), &idle_actions());
    assert_eq!(st.entities.inner[0].linked, Some(4));
    let acts = vec![
        Action::Throw(Vec2 { x: 16000, y: 3750 }, 500),
        Action::Move(Vec2 { x: 0, y: 0 }, 0),
    ];
    st.simulate(&acts, &idle_actions());
    assert_eq!(st.entities.inner[0].linked, None);
    assert_eq!(st.entities.inner[4].linked, None);
    // The thrown snaffle is flying toward the goal.
    assert!(st.entities.inner[4].vel.x > 0);
}

#[test]
fn actions_serialize_to_protocol_lines() {
    let line: String = Action::Move(Vec2 { x: 100, y: -200 }, 150).to_string().into_iter().collect();
    assert_eq!(line, "MOVE 100 -200 150");
    let line: String = Action::Throw(Vec2 { x: 16000, y: 3750 }, 500).to_string().into_iter().collect();
    assert_eq!(line, "THROW 16000 3750 500");
    let line: String = Action::Spell(SpellType::Flipendo, 7).to_string().into_iter().collect();
    assert_eq!(line, "FLIPENDO 7");
    let line: String = Action::Spell(SpellType::Accio, 0).to_string().into_iter().collect();
    assert_eq!(line, "ACCIO 0");
    let line: String = Action::Spell(SpellType::Obliviate, 12).to_string().into_iter().collect();
    assert_eq!(line, "OBLIVIATE 12");
    let line: String = Action::Spell(SpellType::Petrificus, 3).to_string().into_iter().collect();
    assert_eq!(line, "PETRIFICUS 3");
}

#[test]
fn draw_commands_have_exact_text() {
    let line: String = wizard_arena::draw::set_fill_color(255, 99, 255, 0).into_iter().collect();
    assert_eq!(line, "#FILL_COLOR 255 99 255 0");
    let line: String = wizard_arena::draw::set_stroke_color(0, 10, 100, 255).into_iter().collect();
    assert_eq!(line, "#STROKE_COLOR 0 10 100 255");
    let line: String = wizard_arena::draw::no_fill().into_iter().collect();
    assert_eq!(line, "#NOFILL");
    let line: String = wizard_arena::draw::no_stroke().into_iter().collect();
    assert_eq!(line, "#NOSTROKE");
    let line: String = wizard_arena::draw::start_frame().into_iter().collect();
    assert_eq!(line, "#FRAME_START");
}

#[test]
fn spell_costs_and_durations() {
    assert_eq!(SpellType::Flipendo.cost(), 20);
    assert_eq!(SpellType::Accio.cost(), 20);
    assert_eq!(SpellType::Obliviate.cost(), 5);
    assert_eq!(SpellType::Petrificus.cost(), 10);
    assert_eq!(SpellType::Flipendo.duration(), 3);
    assert_eq!(SpellType::Accio.duration(), 6);
    assert_eq!(SpellType::Obliviate.duration(), 3);
    assert_eq!(SpellType::Petrificus.duration(), 1);
}

#[test]
fn faction_inversion_swaps_sides() {
    assert_eq!(Faction::Me.invert(), Faction::Enemy);
    assert_eq!(Faction::Enemy.invert(), Faction::Me);
    assert_eq!(Faction::Neutral.invert(), Faction::Neutral);
}

#[test]
fn goal_distance_exact_values() {
    let right = Goal::from_id(1);
    assert_eq!(right.distance_to(Vec2 { x: 15000, y: 3750 }), 1000);
    // Above the mouth's safety margin the vertical gap counts too.
    assert_eq!(right.distance_to(Vec2 { x: 16000, y: 1000 }), 750);
    let left = Goal::from_id(0);
    assert_eq!(left.distance_to(Vec2 { x: 3000, y: 4000 }), 3000);
}

#[test]
fn prepare_populates_fixed_layout() {
    let st = TurnState::init(9);
    assert_eq!(st.entities.inner.len(), 9);
    for i in 0..9 {
        let e = st.entities.inner[i];
        assert_eq!(e.id, i);
        let expect = if i < 4 {
            EntityType::Wizard
        } else if i < 7 {
            EntityType::Snaffle
        } else {
            EntityType::Bludger
        };
        assert_eq!(e.kind, expect);
        assert!(e.dead);
    }
    assert_eq!(st.entities.inner[0].pos, Vec2 { x: 1000, y: 5250 });
    assert_eq!(st.entities.inner[7].pos, Vec2 { x: 7450, y: 3750 });
    assert_eq!(st.entities.inner[8].pos, Vec2 { x: 8550, y: 3750 });
    assert_eq!(st.my_wizards().len(), 2);
    assert_eq!(st.enemy_wizards().len(), 2);
    assert_eq!(st.snaffles().len(), 3);
    assert_eq!(st.bludgers().len(), 2);
    assert_eq!(st.my_wizards()[0].faction, Faction::Me);
    assert_eq!(st.enemy_wizards()[0].faction, Faction::Enemy);
}

#[test]
fn wall_rebound_reflects_vertical_velocity() {
    // A snaffle racing at the top border rebounds when its edge reaches
    // the line: it travels 350 units up, turns, comes 250 back down, and
    // friction leaves it at 450 units per turn downward.
    let snaffles = vec![snaf(4, 8000, 500, 0, -600)];
    let bludgers = vec![blud(5, 0, 1000, 7000), blud(6, 1, 15000, 7000)];
    let mut st = TurnState::from_vecs(far_wizards(), snaffles, bludgers);
    st.simulate(&idle_actions(), &idle_actions());
    let s = st.entities.inner[4];
    assert_eq!(s.pos, Vec2 { x: 8000, y: 400 });
    assert_eq!(s.vel, Vec2 { x: 0, y: 450 });
}

#[test]
fn wizard_bounces_off_the_wall_even_at_the_goal_mouth() {
    // Only snaffles may pass into the goal; a wizard heading at the right
    // border inside the goal mouth rebounds off it.
    let mut wizards = far_wizards();
    wizards[0] = Entity::new_wizard(
        0,
        0,
        Vec2 { x: 15500, y: 3750 },
        Vec2 { x: 600, y: 0 },
        Faction::Me,
        None,
    );
    let snaffles = vec![snaf(4, 2000, 1000, 0, 0)];
    let bludgers = vec![blud(5, 0, 1000, 7000), blud(6, 1, 2500, 7000)];
    let mut st = TurnState::from_vecs(wizards, snaffles, bludgers);
    st.simulate(&idle_actions(), &idle_actions());
    let w = st.entities.inner[0];
    assert_eq!(w.pos, Vec2 { x: 15100, y: 3750 });
    assert_eq!(w.vel, Vec2 { x: -450, y: 0 });
}
