//! What a run carries from one tick to the next, and the decisions a live
//! session makes with it.
use crate::actuation::JointLoop;
use crate::attack::{arm_target, spec_arm_target, AttackParams, AttackRun};
use crate::fixed::spec_abs;
use crate::gait::{namiashi_tuned_gait_config, spec_tuned_config, GaitConfig, GaitType};
use crate::levelling::LegHeights;
use crate::recovery::{LegAngles, Recovery, RecoveryStep};
use crate::schedule::{differs, gap_over_one, spec_differs};
use crate::self_righting::spec_slew;
use crate::swing::{HipGate, Reflex};
use crate::teleop::LiveTeleop;
use vstd::prelude::*;

verus! {

/// What a run carries from one tick to the next.
#[derive(Clone, Copy, Debug)]
pub struct Session {
    pub recovery: Recovery,
    pub attack: AttackRun,
    /// A respawn is due at the start of the next tick.
    pub respawn_pending: bool,
    pub respawn_inverted: bool,
    pub arm_angle: i64,
    pub reflex: Reflex,
    pub gate: HipGate,
    pub heights: LegHeights,
    pub joints: JointLoop,
    /// Which legs the gait last had in stance.
    pub stance_mask: [bool; 4],
    /// Normal force under each foot in the last tick: a controller acts on
    /// the force it has already measured.
    pub foot_fz_now: [i64; 4],
    pub yaw_prev: i64,
    /// The live settings in force.
    pub live_gait: GaitType,
    pub live_swing_height_m: i64,
    pub live_ground_mu: i64,
    pub live_controller_mu: i64,
}

/// What a live session asks for in one tick.
#[derive(Clone, Copy, Debug)]
pub struct LiveChanges {
    /// A new velocity command.
    pub cmd: Option<[i64; 3]>,
    /// A new gait configuration.
    pub gait: Option<GaitConfig>,
    pub ground_mu: Option<i64>,
    pub controller_mu: Option<i64>,
}

/// The ends of a joint's travel, where it exists, are in order.
pub open spec fn ordered(range: Option<(i64, i64)>) -> bool {
    match range {
        Some((lo, hi)) => lo <= hi,
        None => true,
    }
}

/// A setting that has moved by more than the smallest step from its own.
pub open spec fn spec_change(asked: i64, own: i64) -> Option<i64> {
    if spec_abs(asked - own) > 1 {
        Some(asked)
    } else {
        None
    }
}

/// A command that differs from the one in force.
pub open spec fn spec_cmd_change(now: [i64; 3], want: [i64; 3]) -> Option<[i64; 3]> {
    if spec_differs(now, want) {
        Some(want)
    } else {
        None
    }
}

/// The simulation's clock has gone back.
pub open spec fn spec_went_back(t_before: int, t_after: int) -> bool {
    t_after < t_before - 1
}

/// What a live session does in one tick.
#[derive(Clone, Copy, Debug)]
pub struct LiveTick {
    /// The arm's new target, where it moves.
    pub arm: Option<i64>,
    /// Whether an attack has just come to its end.
    pub attack_done: bool,
    /// What the session changes, once the burn-in is over.
    pub changes: Option<LiveChanges>,
}

impl LiveTeleop {
    /// Whether a recovery is asked for at time `t`, by key or by clock.
    pub open spec fn wants_recovery(self, t: int) -> bool {
        self.recover_requested || (self.recover_at_sim_s is Some && t >= self.recover_at_sim_s->0)
    }

    /// Whether an attack is asked for at time `t`, by key or by clock.
    pub open spec fn wants_attack(self, t: int) -> bool {
        self.attack_requested || (self.attack_at_sim_s is Some && t >= self.attack_at_sim_s->0)
    }

    /// The state once the physics loop has taken its requests at time `t`.
    pub open spec fn spec_taken(self, t: int) -> Self {
        LiveTeleop {
            sim_time_s: t as i64,
            recover_at_sim_s: if self.recover_at_sim_s is Some && t >= self.recover_at_sim_s->0 {
                None
            } else {
                self.recover_at_sim_s
            },
            attack_at_sim_s: if self.attack_at_sim_s is Some && t >= self.attack_at_sim_s->0 {
                None
            } else {
                self.attack_at_sim_s
            },
            respawn_requested: false,
            recover_requested: false,
            attack_requested: false,
            ..self
        }
    }
}

impl Session {
    pub open spec fn wf(self) -> bool {
        self.recovery.wf()
    }

    /// No leg remembers anything: no previous target, no reflex, no felt
    /// height, no force, and every leg taken to be in stance.
    pub open spec fn legs_forgotten(self) -> bool {
        &&& forall|i: int| 0 <= i < 12 ==> #[trigger] self.joints.prev_targets[i] == 0
        &&& forall|i: int| 0 <= i < 4 ==> #[trigger] self.stance_mask[i]
        &&& forall|i: int| 0 <= i < 4 ==> !#[trigger] self.reflex.active[i]
        &&& forall|i: int| 0 <= i < 4 ==> #[trigger] self.foot_fz_now[i] == 0
        &&& self.heights.fresh()
    }

    /// Whether the robot is put back, and if so upside down: a request made
    /// now has the say over one that is pending.
    pub open spec fn spec_put_back(self, live: LiveTeleop) -> Option<bool> {
        if live.respawn_requested {
            Some(live.respawn_inverted)
        } else if self.respawn_pending {
            Some(self.respawn_inverted)
        } else {
            None
        }
    }

    /// The recovery once a live session's request for one, if any, is taken.
    pub open spec fn spec_asked_recovery(self, live: LiveTeleop, t: int) -> Recovery {
        if live.wants_recovery(t) {
            Recovery {
                t: Some(0),
                upright_s: 0,
                slew: None,
                tilt: None,
                mirror: None,
                fast: live.recover_fast,
            }
        } else {
            self.recovery
        }
    }

    /// A run about to start.
    pub fn new(gait: &GaitConfig, arm_angle: i64, ground_mu: i64, controller_mu: i64) -> (r: Self)
        ensures
            r.wf(),
            r.recovery.idle(),
            r.attack == (AttackRun { t: None, now: None }),
            !r.respawn_pending,
            !r.respawn_inverted,
            r.arm_angle == arm_angle,
            !r.recovery.fast,
            r.legs_forgotten(),
            forall|i: int| 0 <= i < 12 ==> #[trigger] r.joints.host_pd[i] == 0,
            r.gate == (HipGate { open_until: None, bias_now: 0 }),
            r.yaw_prev == 0,
            r.live_gait == gait.gait_type,
            r.live_swing_height_m == gait.swing_height_m,
            r.live_ground_mu == ground_mu,
            r.live_controller_mu == controller_mu,
    {
        Session {
            recovery: Recovery::new(),
            attack: AttackRun::new(),
            respawn_pending: false,
            respawn_inverted: false,
            arm_angle,
            reflex: Reflex::new(),
            gate: HipGate::new(),
            heights: LegHeights::new(),
            joints: JointLoop::new(),
            stance_mask: [true, true, true, true],
            foot_fz_now: [0, 0, 0, 0],
            yaw_prev: 0,
            live_gait: gait.gait_type,
            live_swing_height_m: gait.swing_height_m,
            live_ground_mu: ground_mu,
            live_controller_mu: controller_mu,
        }
    }

    /// Put a session's live friction settings to what the simulation and the
    /// controller were built with, so that the first press steps off the
    /// real values.
    pub fn seed_friction(&self, live: &mut LiveTeleop)
        ensures
            *final(live) == (LiveTeleop {
                ground_mu: self.live_ground_mu,
                controller_mu: self.live_controller_mu,
                ..*old(live)
            }),
    {
        live.ground_mu = self.live_ground_mu;
        live.controller_mu = self.live_controller_mu;
    }

    /// Take the requests a live session has made, at time `t`. Each is an
    /// edge: it is cleared as it is taken.
    pub fn take_requests(&mut self, live: &mut LiveTeleop, t: i64)
        requires
            old(self).wf(),
        ensures
            final(self).wf(),
            *final(live) == old(live).spec_taken(t as int),
            final(self).respawn_pending == (old(self).respawn_pending
                || old(live).respawn_requested),
            final(self).respawn_inverted == (if old(live).respawn_requested {
                old(live).respawn_inverted
            } else {
                old(self).respawn_inverted
            }),
            final(self).attack == (if old(live).wants_attack(t as int) {
                AttackRun { t: Some(0), now: old(self).attack.now }
            } else {
                old(self).attack
            }),
            final(self).recovery == old(self).spec_asked_recovery(*old(live), t as int),
            *final(self) == (Session {
                respawn_pending: final(self).respawn_pending,
                respawn_inverted: final(self).respawn_inverted,
                attack: final(self).attack,
                recovery: final(self).recovery,
                ..*old(self)
            }),
    {
        live.sim_time_s = t;
        let timed_recovery = match live.recover_at_sim_s {
            Some(at) => t >= at,
            None => false,
        };
        if timed_recovery {
            live.recover_at_sim_s = None;
        }
        let timed_attack = match live.attack_at_sim_s {
            Some(at) => t >= at,
            None => false,
        };
        if timed_attack {
            live.attack_at_sim_s = None;
        }
        let respawn = live.respawn_requested;
        let attack = live.attack_requested || timed_attack;
        let recover = live.recover_requested || timed_recovery;
        live.respawn_requested = false;
        live.attack_requested = false;
        live.recover_requested = false;
        if respawn {
            self.respawn_pending = true;
            self.respawn_inverted = live.respawn_inverted;
        }
        if attack {
            self.attack.start();
        }
        if recover {
            self.recovery.start(live.recover_fast);
        }
    }

    /// Whether a respawn is due, and if so upside down. A respawn drops any
    /// recovery and any attack, even ones asked for in the same tick.
    pub fn take_respawn(&mut self) -> (r: Option<bool>)
        requires
            old(self).wf(),
        ensures
            final(self).wf(),
            r == (if old(self).respawn_pending {
                Some(old(self).respawn_inverted)
            } else {
                None
            }),
            !old(self).respawn_pending ==> *final(self) == *old(self),
            old(self).respawn_pending ==> *final(self) == (Session {
                respawn_pending: false,
                respawn_inverted: false,
                recovery: Recovery { t: None, upright_s: 0, slew: None, ..old(self).recovery },
                attack: AttackRun { t: None, now: old(self).attack.now },
                ..*old(self)
            }),
    {
        if !self.respawn_pending {
            return None;
        }
        let inverted = self.respawn_inverted;
        self.respawn_pending = false;
        self.respawn_inverted = false;
        self.recovery.cancel();
        self.attack.cancel();
        Some(inverted)
    }

    /// Forget everything that was learned where the robot no longer is, once
    /// it has been put back: a differentiator that would spike, a reflex or a
    /// bias that thinks it is still triggered, and ground heights felt
    /// somewhere else. `arm` is where its joint now stands.
    pub fn respawned(&mut self, arm: Option<i64>)
        requires
            old(self).wf(),
        ensures
            final(self).wf(),
            final(self).legs_forgotten(),
            final(self).gate == (HipGate { open_until: None, bias_now: 0 }),
            final(self).yaw_prev == 0,
            final(self).arm_angle == (match arm {
                Some(q) => q,
                None => old(self).arm_angle,
            }),
            final(self).recovery == old(self).recovery,
            final(self).attack == old(self).attack,
            final(self).respawn_pending == old(self).respawn_pending,
            final(self).respawn_inverted == old(self).respawn_inverted,
            final(self).live_gait == old(self).live_gait,
            final(self).live_swing_height_m == old(self).live_swing_height_m,
            final(self).live_ground_mu == old(self).live_ground_mu,
            final(self).live_controller_mu == old(self).live_controller_mu,
            final(self).joints.host_pd == old(self).joints.host_pd,
    {
        self.forget_legs();
        self.gate = HipGate::new();
        self.yaw_prev = 0;
        if let Some(q) = arm {
            self.arm_angle = q;
        }
    }

    fn forget_legs(&mut self)
        ensures
            final(self).legs_forgotten(),
            final(self).joints.host_pd == old(self).joints.host_pd,
            *final(self) == (Session {
                joints: final(self).joints,
                stance_mask: final(self).stance_mask,
                reflex: final(self).reflex,
                foot_fz_now: final(self).foot_fz_now,
                heights: final(self).heights,
                ..*old(self)
            }),
    {
        self.joints.forget();
        self.stance_mask = [true, true, true, true];
        self.reflex = Reflex::new();
        self.foot_fz_now = [0, 0, 0, 0];
        self.heights = LegHeights::new();
    }

    /// Notice that the simulation's clock has gone back, which is the one
    /// trace a reset from outside leaves. It is handled at the start of the
    /// next tick, in the same way as one asked for by key.
    pub fn watch_clock(&mut self, t_before: i64, t_after: i64)
        ensures
            *final(self) == (Session {
                respawn_pending: old(self).respawn_pending || spec_went_back(
                    t_before as int,
                    t_after as int,
                ),
                ..*old(self)
            }),
    {
        if (t_after as i128) < t_before as i128 - 1 {
            self.respawn_pending = true;
        }
    }

    /// Move the arm at the physics rate, and return the target to send if it
    /// moved. Its angle is echoed to the live session.
    pub fn move_arm(&mut self, live: &mut LiveTeleop, range: (i64, i64), dt: i64) -> (r: Option<i64>)
        requires
            old(self).attack.now is Some || old(live).arm_rate != 0 ==> range.0 <= range.1,
        ensures
            match spec_arm_target(
                old(self).arm_angle as int,
                old(self).attack.now,
                old(live).arm_rate as int,
                range,
                dt as int,
            ) {
                Some(q) => r is Some && r->0 == q && final(self).arm_angle == q,
                None => r is None && final(self).arm_angle == old(self).arm_angle,
            },
            *final(self) == (Session { arm_angle: final(self).arm_angle, ..*old(self) }),
            *final(live) == (LiveTeleop { arm_angle_rad: final(self).arm_angle, ..*old(live) }),
    {
        let target = arm_target(self.arm_angle, self.attack.now, live.arm_rate, range, dt);
        if let Some(q) = target {
            self.arm_angle = q;
        }
        live.arm_angle_rad = self.arm_angle;
        target
    }

    /// Advance an attack under way, and say whether it has just ended.
    pub fn advance_attack(&mut self, plan: &AttackParams, dt: i64) -> (done: bool)
        ensures
            *final(self) == (Session {
                attack: old(self).attack.spec_advance(
                    *plan,
                    old(self).recovery.t is Some,
                    dt as int,
                ),
                ..*old(self)
            }),
            done == old(self).attack.spec_done(*plan, old(self).recovery.t is Some),
    {
        self.attack.advance(plan, self.recovery.t.is_some(), dt)
    }

    /// Begin a tick of a live session at time `t`: take its requests, and say
    /// whether the robot is to be put back first, and if so upside down.
    /// That comes before anything reads the robot's state.
    pub fn open_tick(&mut self, live: &mut LiveTeleop, t: i64) -> (r: Option<bool>)
        requires
            old(self).wf(),
        ensures
            final(self).wf(),
            *final(live) == old(live).spec_taken(t as int),
            r == old(self).spec_put_back(*old(live)),
            final(self).recovery == (if r is Some {
                Recovery {
                    t: None,
                    upright_s: 0,
                    slew: None,
                    ..old(self).spec_asked_recovery(*old(live), t as int)
                }
            } else {
                old(self).spec_asked_recovery(*old(live), t as int)
            }),
            final(self).attack == (AttackRun {
                t: if r is Some {
                    None
                } else if old(live).wants_attack(t as int) {
                    Some(0)
                } else {
                    old(self).attack.t
                },
                now: old(self).attack.now,
            }),
            *final(self) == (Session {
                respawn_pending: false,
                respawn_inverted: if r is Some {
                    false
                } else {
                    old(self).respawn_inverted
                },
                attack: final(self).attack,
                recovery: final(self).recovery,
                ..*old(self)
            }),
    {
        self.take_requests(live, t);
        self.take_respawn()
    }

    /// The command a live session wants: the attack's own while one runs, so
    /// that a held key does not walk the robot through the opponent, and the
    /// keys' otherwise.
    pub open spec fn spec_live_cmd(self, live: LiveTeleop) -> [i64; 3] {
        match self.attack.now {
            Some(a) => [a.cmd_vx, 0, 0],
            None => live.cmd,
        }
    }

    /// The gait configuration a live session wants, where it differs from the
    /// one in force.
    pub open spec fn spec_live_gait(self, live: LiveTeleop) -> Option<GaitConfig> {
        if live.gait != self.live_gait || spec_abs(live.swing_height_m - self.live_swing_height_m)
            > 1 {
            Some(
                GaitConfig {
                    swing_height_m: live.swing_height_m,
                    ..spec_tuned_config(live.gait)
                },
            )
        } else {
            None
        }
    }

    /// What a live session changes this tick, given the command in force. A
    /// new gait and a new swing height go out as one configuration.
    pub fn live_changes(&mut self, live: &LiveTeleop, now: &[i64; 3]) -> (r: LiveChanges)
        ensures
            r.cmd == spec_cmd_change(*now, old(self).spec_live_cmd(*live)),
            r.gait == old(self).spec_live_gait(*live),
            r.ground_mu == spec_change(live.ground_mu, old(self).live_ground_mu),
            r.controller_mu == spec_change(live.controller_mu, old(self).live_controller_mu),
            *final(self) == (Session {
                live_gait: if r.gait is Some {
                    live.gait
                } else {
                    old(self).live_gait
                },
                live_swing_height_m: if r.gait is Some {
                    live.swing_height_m
                } else {
                    old(self).live_swing_height_m
                },
                live_ground_mu: if r.ground_mu is Some {
                    live.ground_mu
                } else {
                    old(self).live_ground_mu
                },
                live_controller_mu: if r.controller_mu is Some {
                    live.controller_mu
                } else {
                    old(self).live_controller_mu
                },
                ..*old(self)
            }),
    {
        let want: [i64; 3] = match self.attack.now {
            Some(a) => [a.cmd_vx, 0, 0],
            None => live.cmd,
        };
        assert(want =~= old(self).spec_live_cmd(*live));
        let cmd: Option<[i64; 3]> = if differs(now, &want) {
            Some(want)
        } else {
            None
        };
        let new_gait = live.gait != self.live_gait || gap_over_one(
            live.swing_height_m,
            self.live_swing_height_m,
        );
        let gait = if new_gait {
            let mut cfg = namiashi_tuned_gait_config(live.gait);
            cfg.swing_height_m = live.swing_height_m;
            self.live_gait = live.gait;
            self.live_swing_height_m = live.swing_height_m;
            Some(cfg)
        } else {
            None
        };
        let ground_mu: Option<i64> = if gap_over_one(live.ground_mu, self.live_ground_mu) {
            self.live_ground_mu = live.ground_mu;
            Some(live.ground_mu)
        } else {
            None
        };
        let controller_mu: Option<i64> = if gap_over_one(
            live.controller_mu,
            self.live_controller_mu,
        ) {
            self.live_controller_mu = live.controller_mu;
            Some(live.controller_mu)
        } else {
            None
        };
        LiveChanges { cmd, gait, ground_mu, controller_mu }
    }

    /// The rest of a live session's part in a tick: the arm moves by the
    /// attack's last command or by the keys, the attack moves on, and once
    /// the burn-in is over the session's settings take effect.
    pub fn drive(
        &mut self,
        live: &mut LiveTeleop,
        arm_range: Option<(i64, i64)>,
        plan: &AttackParams,
        walking: bool,
        now: &[i64; 3],
        dt: i64,
    ) -> (r: LiveTick)
        requires
            old(self).attack.now is Some || old(live).arm_rate != 0 ==> ordered(arm_range),
        ensures
            arm_range is None ==> r.arm is None && final(self).arm_angle == old(self).arm_angle,
            arm_range is Some ==> match spec_arm_target(
                old(self).arm_angle as int,
                old(self).attack.now,
                old(live).arm_rate as int,
                arm_range->0,
                dt as int,
            ) {
                Some(q) => r.arm is Some && r.arm->0 == q && final(self).arm_angle == q,
                None => r.arm is None && final(self).arm_angle == old(self).arm_angle,
            },
            final(self).attack == old(self).attack.spec_advance(
                *plan,
                old(self).recovery.t is Some,
                dt as int,
            ),
            r.attack_done == old(self).attack.spec_done(*plan, old(self).recovery.t is Some),
            *final(live) == (if arm_range is Some {
                LiveTeleop { arm_angle_rad: final(self).arm_angle, ..*old(live) }
            } else {
                *old(live)
            }),
            r.changes is Some <==> walking,
            walking ==> {
                let c = r.changes->0;
                &&& c.cmd == spec_cmd_change(*now, final(self).spec_live_cmd(*final(live)))
                &&& c.gait == old(self).spec_live_gait(*old(live))
                &&& c.ground_mu == spec_change(old(live).ground_mu, old(self).live_ground_mu)
                &&& c.controller_mu == spec_change(
                    old(live).controller_mu,
                    old(self).live_controller_mu,
                )
            },
            *final(self) == (Session {
                arm_angle: final(self).arm_angle,
                attack: final(self).attack,
                live_gait: if walking && r.changes->0.gait is Some {
                    old(live).gait
                } else {
                    old(self).live_gait
                },
                live_swing_height_m: if walking && r.changes->0.gait is Some {
                    old(live).swing_height_m
                } else {
                    old(self).live_swing_height_m
                },
                live_ground_mu: if walking && r.changes->0.ground_mu is Some {
                    old(live).ground_mu
                } else {
                    old(self).live_ground_mu
                },
                live_controller_mu: if walking && r.changes->0.controller_mu is Some {
                    old(live).controller_mu
                } else {
                    old(self).live_controller_mu
                },
                ..*old(self)
            }),
    {
        let arm: Option<i64> = match arm_range {
            Some(range) => self.move_arm(live, range, dt),
            None => None,
        };
        let attack_done = self.advance_attack(plan, dt);
        let changes = if walking {
            Some(self.live_changes(live, now))
        } else {
            None
        };
        LiveTick { arm, attack_done, changes }
    }

    /// One step of a recovery under way. When it ends, what the legs remember
    /// is dropped: the gait has been running all along against a robot that
    /// was not walking. `has_arm` says whether the model has one.
    pub fn recover(
        &mut self,
        accel: Option<[i64; 3]>,
        arm: Option<i64>,
        legs: &LegAngles,
        has_arm: bool,
        dt: i64,
    ) -> (r: RecoveryStep)
        requires
            old(self).wf(),
            old(self).recovery.t is Some,
        ensures
            final(self).wf(),
            r.ended == old(self).recovery.spec_ended(accel, dt as int),
            r.arm == spec_slew(
                old(self).recovery.spec_arm_from(arm, accel, dt as int),
                old(self).recovery.spec_want_arm(accel, dt as int),
                old(self).recovery.spec_step(dt as int),
            ),
            forall|l: int, k: int|
                0 <= l < 4 && 0 <= k < 3 ==> #[trigger] r.legs[l][k] == spec_slew(
                    old(self).recovery.spec_leg_from(*legs, accel, dt as int, l, k),
                    old(self).recovery.spec_want_leg(accel, dt as int, l, k),
                    old(self).recovery.spec_step(dt as int),
                ),
            final(self).arm_angle == (if has_arm {
                r.arm
            } else {
                old(self).arm_angle
            }),
            final(self).recovery == old(self).recovery.spec_next(accel, dt as int, r),
            r.ended is Some ==> {
                &&& final(self).legs_forgotten()
                &&& final(self).joints.host_pd == old(self).joints.host_pd
                &&& *final(self) == (Session {
                    recovery: final(self).recovery,
                    arm_angle: final(self).arm_angle,
                    joints: final(self).joints,
                    stance_mask: final(self).stance_mask,
                    reflex: final(self).reflex,
                    foot_fz_now: final(self).foot_fz_now,
                    heights: final(self).heights,
                    ..*old(self)
                })
            },
            r.ended is None ==> *final(self) == (Session {
                recovery: final(self).recovery,
                arm_angle: final(self).arm_angle,
                ..*old(self)
            }),
    {
        let step = self.recovery.step(accel, arm, legs, dt);
        if has_arm {
            self.arm_angle = step.arm;
        }
        if step.ended.is_some() {
            self.forget_legs();
        }
        step
    }
}

/// Requests are edges: once taken there is nothing left to take, at that time
/// or any earlier one.
pub proof fn law_requests_are_taken_once(live: LiveTeleop, t: int, later: int)
    requires
        later <= t,
    ensures
        !live.spec_taken(t).respawn_requested,
        !live.spec_taken(t).wants_attack(later),
        !live.spec_taken(t).wants_recovery(later),
{
}

/// A clock that was set for later stays set until its time comes.
pub proof fn law_clock_waits(live: LiveTeleop, t: int, at: i64)
    requires
        live.recover_at_sim_s == Some(at),
        live.attack_at_sim_s == Some(at),
        t < at,
    ensures
        live.spec_taken(t).recover_at_sim_s == Some(at),
        live.spec_taken(t).attack_at_sim_s == Some(at),
        live.spec_taken(t).wants_recovery(at as int),
        live.spec_taken(t).wants_attack(at as int),
{
}

/// While an attack runs the keys are ignored, and only its own creep moves
/// the robot.
pub proof fn law_attack_owns_the_command(s: Session, live: LiveTeleop, other: LiveTeleop)
    requires
        s.attack.now is Some,
    ensures
        s.spec_live_cmd(live) == s.spec_live_cmd(other),
        s.spec_live_cmd(live)[1] == 0,
        s.spec_live_cmd(live)[2] == 0,
{
}

/// A gait asked for live lands on the tuned settings of that gait, but for
/// the swing height, which is the one asked for.
pub proof fn law_live_gait_is_tuned(s: Session, live: LiveTeleop)
    requires
        s.spec_live_gait(live) is Some,
    ensures
        s.spec_live_gait(live)->0.gait_type == live.gait,
        s.spec_live_gait(live)->0.cycle_period_s == spec_tuned_config(live.gait).cycle_period_s,
        s.spec_live_gait(live)->0.duty_factor == spec_tuned_config(live.gait).duty_factor,
        s.spec_live_gait(live)->0.max_step_length_m == spec_tuned_config(
            live.gait,
        ).max_step_length_m,
        s.spec_live_gait(live)->0.swing_height_m == live.swing_height_m,
{
}

/// A recovery or an attack is asked for by its key, or by its clock from its
/// time on, each on its own.
pub proof fn law_who_asks(live: LiveTeleop, t: int)
    ensures
        live.recover_requested ==> live.wants_recovery(t),
        live.attack_requested ==> live.wants_attack(t),
        !live.recover_requested && live.recover_at_sim_s is None ==> !live.wants_recovery(t),
        !live.attack_requested && live.attack_at_sim_s is None ==> !live.wants_attack(t),
        !live.recover_requested && live.recover_at_sim_s is Some ==> (live.wants_recovery(t) <==> t
            >= live.recover_at_sim_s->0),
        !live.attack_requested && live.attack_at_sim_s is Some ==> (live.wants_attack(t) <==> t
            >= live.attack_at_sim_s->0),
{
}

/// Taking the requests clears them and the clocks whose time has come, tells
/// the time, and touches nothing else.
pub proof fn law_taking_requests(live: LiveTeleop, t: i64)
    ensures
        ({
            let n = live.spec_taken(t as int);
            &&& n.sim_time_s == t
            &&& !n.respawn_requested && !n.recover_requested && !n.attack_requested
            &&& live.recover_at_sim_s is Some && t >= live.recover_at_sim_s->0
                ==> n.recover_at_sim_s is None
            &&& live.recover_at_sim_s is None || t < live.recover_at_sim_s->0 ==> n.recover_at_sim_s
                == live.recover_at_sim_s
            &&& live.attack_at_sim_s is Some && t >= live.attack_at_sim_s->0 ==> n.attack_at_sim_s
                is None
            &&& live.attack_at_sim_s is None || t < live.attack_at_sim_s->0 ==> n.attack_at_sim_s
                == live.attack_at_sim_s
            &&& n.cmd == live.cmd && n.gait == live.gait && n.swing_height_m == live.swing_height_m
            &&& n.body_lift_m == live.body_lift_m && n.level_enabled == live.level_enabled
            &&& n.arm_rate == live.arm_rate && n.arm_angle_rad == live.arm_angle_rad
            &&& n.respawn_inverted == live.respawn_inverted && n.recover_fast == live.recover_fast
            &&& n.ground_mu == live.ground_mu && n.controller_mu == live.controller_mu
            &&& n.show_help == live.show_help
        }),
{
}

/// A recovery that is asked for starts from its beginning, at the speed that
/// was asked for; otherwise the one under way goes on.
pub proof fn law_asked_recovery(s: Session, live: LiveTeleop, t: int)
    ensures
        !live.wants_recovery(t) ==> s.spec_asked_recovery(live, t) == s.recovery,
        live.wants_recovery(t) ==> {
            let r = s.spec_asked_recovery(live, t);
            &&& r.t == Some(0i64) && r.fast == live.recover_fast
            &&& r.upright_s == 0 && r.slew is None && r.tilt is None && r.mirror is None
        },
{
}

/// Without an attack the keys drive the robot; with one, it walks straight on
/// at the attack's own speed.
pub proof fn law_who_drives(s: Session, live: LiveTeleop)
    ensures
        s.attack.now is None ==> s.spec_live_cmd(live) == live.cmd,
        s.attack.now is Some ==> s.spec_live_cmd(live)[0] == s.attack.now->0.cmd_vx,
{
}

/// A new gait, and a new swing height up or down, each ask for a new
/// configuration; the same ones ask for none.
pub proof fn law_when_the_gait_changes(s: Session, live: LiveTeleop)
    ensures
        live.gait != s.live_gait ==> s.spec_live_gait(live) is Some,
        live.swing_height_m - s.live_swing_height_m > 1 ==> s.spec_live_gait(live) is Some,
        live.swing_height_m - s.live_swing_height_m < -1 ==> s.spec_live_gait(live) is Some,
        live.gait == s.live_gait && -1 <= live.swing_height_m - s.live_swing_height_m <= 1
            ==> s.spec_live_gait(live) is None,
{
}

/// A friction setting, or a command, goes out once it has moved by more than
/// the smallest step, either way.
pub proof fn law_when_settings_change(asked: i64, own: i64, now: [i64; 3], want: [i64; 3])
    ensures
        asked - own > 1 ==> spec_change(asked, own) == Some(asked),
        asked - own < -1 ==> spec_change(asked, own) == Some(asked),
        -1 <= asked - own <= 1 ==> spec_change(asked, own) is None,
        spec_differs(now, want) ==> spec_cmd_change(now, want) == Some(want),
        !spec_differs(now, want) ==> spec_cmd_change(now, want) is None,
{
}

/// A clock that has gone back means a reset, one that has stood still or gone
/// on does not.
pub proof fn law_clock_goes_back(before: i64, after: i64)
    ensures
        after < before - 1 ==> spec_went_back(before as int, after as int),
        after >= before - 1 ==> !spec_went_back(before as int, after as int),
{
}

/// A respawn asked for now is upside down as it is asked for; one that was
/// pending as it was noted; without either there is none.
pub proof fn law_put_back(s: Session, live: LiveTeleop)
    ensures
        live.respawn_requested ==> s.spec_put_back(live) == Some(live.respawn_inverted),
        !live.respawn_requested && s.respawn_pending ==> s.spec_put_back(live) == Some(
            s.respawn_inverted,
        ),
        !live.respawn_requested && !s.respawn_pending ==> s.spec_put_back(live) is None,
{
}

/// Legs that have forgotten remember no target, no reflex, no force and no
/// height, and all stand.
pub proof fn law_forgotten_legs(s: Session, i: int, k: int)
    requires
        s.legs_forgotten(),
        0 <= i < 4,
        0 <= k < 12,
    ensures
        s.joints.prev_targets[k] == 0,
        s.stance_mask[i],
        !s.reflex.active[i],
        s.foot_fz_now[i] == 0,
        s.heights.filt[i] == 0,
        !s.heights.seen[i],
{
    assert(!s.heights.seen[i]);
}

} // verus!
