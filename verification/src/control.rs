//! Control abstractions: how a command maps to commanded rotor speeds.
//!
//! Each abstraction is a unit type, so that the choice is a type parameter of
//! [`crate::multirotor::Multirotor`].
use vstd::prelude::*;

use crate::linalg::Vec3;
use crate::params::{QuadParams, NUM_ROTORS};
use crate::scalar::{Real, Scalar};
use crate::state::State;

verus! {

/// The speed at which a rotor gives the force `f`: `sign(f/k) * sqrt(|f/k|)`.
pub open spec fn spec_force_to_speed<S: Scalar>(f: S, k_eta: S) -> S {
    let x = f / k_eta;
    x.spec_signum() * x.spec_abs().spec_sqrt()
}

/// [`spec_force_to_speed`] of each of the four rotors.
pub open spec fn spec_forces_to_speeds<S: Scalar>(forces: Seq<S>, k_eta: S) -> Seq<S> {
    seq![
        spec_force_to_speed(forces[0], k_eta),
        spec_force_to_speed(forces[1], k_eta),
        spec_force_to_speed(forces[2], k_eta),
        spec_force_to_speed(forces[3], k_eta),
    ]
}

fn force_to_speed<S: Scalar>(f: S, k_eta: S) -> (r: S)
    ensures
        r == spec_force_to_speed(f, k_eta),
{
    let x = f.div(k_eta);
    x.signum().mul(x.abs().sqrt())
}

fn forces_to_speeds<S: Scalar>(forces: [S; NUM_ROTORS], k_eta: S) -> (r: [S; NUM_ROTORS])
    ensures
        r@ == spec_forces_to_speeds(forces@, k_eta),
{
    [
        force_to_speed(forces[0], k_eta),
        force_to_speed(forces[1], k_eta),
        force_to_speed(forces[2], k_eta),
        force_to_speed(forces[3], k_eta),
    ]
}

/// A control abstraction over the scalar `S`.
pub trait ControlLaw<S: Scalar> {
    type Command;

    /// The value of [`ControlLaw::cmd_rotor_speeds`].
    closed spec fn spec_cmd_rotor_speeds(
        params: QuadParams<S>,
        state: State<S>,
        cmd: Self::Command,
    ) -> Seq<S> {
        vstd::pervasive::arbitrary()
    }

    /// Commanded rotor speeds, before they are cut to the motor range.
    fn cmd_rotor_speeds(params: &QuadParams<S>, state: &State<S>, cmd: &Self::Command) -> (r: [S;
        NUM_ROTORS])
        ensures
            r@ == Self::spec_cmd_rotor_speeds(*params, *state, *cmd),
    ;
}

/// The command is the four rotor forces [N].
pub struct RotorForce;

impl<S: Scalar> ControlLaw<S> for RotorForce {
    type Command = [S; NUM_ROTORS];

    open spec fn spec_cmd_rotor_speeds(
        params: QuadParams<S>,
        state: State<S>,
        cmd: [S; NUM_ROTORS],
    ) -> Seq<S> {
        spec_forces_to_speeds(cmd@, params.k_eta)
    }

    fn cmd_rotor_speeds(params: &QuadParams<S>, _state: &State<S>, cmd: &[S; NUM_ROTORS]) -> (r: [S;
        NUM_ROTORS]) {
        forces_to_speeds(*cmd, params.k_eta)
    }
}

/// Collective thrust [N] and desired body rates [rad/s].
#[derive(Clone, Copy, Debug)]
pub struct CtbrCmd<S> {
    pub thrust: S,
    pub w_cmd: Vec3<S>,
}

impl<S: Copy> CtbrCmd<S> {
    pub open spec fn spec_to_array(self) -> [S; 4] {
        [self.thrust, self.w_cmd.x, self.w_cmd.y, self.w_cmd.z]
    }

    pub open spec fn spec_from_array(a: [S; 4]) -> Self {
        CtbrCmd { thrust: a[0], w_cmd: Vec3 { x: a[1], y: a[2], z: a[3] } }
    }

    /// `[thrust, wx, wy, wz]`.
    pub fn to_array(self) -> (r: [S; 4])
        ensures
            r == self.spec_to_array(),
    {
        [self.thrust, self.w_cmd.x, self.w_cmd.y, self.w_cmd.z]
    }

    /// The command `[thrust, wx, wy, wz]`.
    pub fn from_array(a: [S; 4]) -> (r: Self)
        ensures
            r == Self::spec_from_array(a),
    {
        CtbrCmd { thrust: a[0], w_cmd: Vec3 { x: a[1], y: a[2], z: a[3] } }
    }
}

/// The command is a [`CtbrCmd`]: an inner proportional rate loop produces a moment,
/// and the allocation matrix turns thrust and moment into rotor forces.
pub struct Ctbr;

/// Thrust and moment that the rate loop asks for: `I (-k_w (w - w_cmd))`.
pub open spec fn spec_ctbr_wrench<S: Scalar>(
    params: QuadParams<S>,
    state: State<S>,
    cmd: CtbrCmd<S>,
) -> Seq<S> {
    let moment = params.inertia.spec_matvec((state.w - cmd.w_cmd).spec_scale(-params.k_w));
    seq![cmd.thrust, moment.x, moment.y, moment.z]
}

impl<S: Scalar> ControlLaw<S> for Ctbr {
    type Command = CtbrCmd<S>;

    open spec fn spec_cmd_rotor_speeds(
        params: QuadParams<S>,
        state: State<S>,
        cmd: CtbrCmd<S>,
    ) -> Seq<S> {
        spec_forces_to_speeds(
            params.tm_to_f.spec_matvec(spec_ctbr_wrench(params, state, cmd)),
            params.k_eta,
        )
    }

    fn cmd_rotor_speeds(params: &QuadParams<S>, state: &State<S>, cmd: &CtbrCmd<S>) -> (r: [S;
        NUM_ROTORS]) {
        let w_err = state.w.sub(cmd.w_cmd);
        let wdot_cmd = w_err.scale(params.k_w.neg());
        let moment = params.inertia.matvec(wdot_cmd);
        let tm = [cmd.thrust, moment.x, moment.y, moment.z];
        assert(tm@ =~= spec_ctbr_wrench(*params, *state, *cmd));
        let forces = params.tm_to_f.matvec(tm);
        forces_to_speeds(forces, params.k_eta)
    }
}

/// A rotor at its commanded speed `r` gives the force that was asked for, of either sign:
/// `k_eta r |r|` is that force.
pub proof fn law_speed_gives_force<S: Real>(f: S, k_eta: S)
    requires
        crate::scalar::exact::<S>(),
        k_eta.val() > 0real,
    ensures
        ({
            let r = spec_force_to_speed(f, k_eta);
            k_eta.val() * (r.val() * r.spec_abs().val()) == f.val()
        }),
{
    let x = f / k_eta;
    let (a, k) = (f.val(), k_eta.val());
    let v = x.val();
    assert(v == a / k);
    let root = x.spec_abs().spec_sqrt().val();
    let size = x.spec_abs().val();
    assert(root >= 0real && root * root == size);
    let r = spec_force_to_speed(f, k_eta);
    let sign = x.spec_signum().val();
    assert(r.val() == sign * root);
    assert(k * v == a) by (nonlinear_arith)
        requires
            v == a / k,
            k > 0real,
    ;
    if v >= 0real {
        assert(1real * root == root) by (nonlinear_arith);
        assert(r.val() == root);
        assert(r.spec_abs().val() == root);
    } else {
        crate::algebra::lemma_neg(1real, root);
        assert(1real * root == root) by (nonlinear_arith);
        assert(r.val() == -root);
        assert(r.spec_abs().val() == root);
        crate::algebra::lemma_neg(root, root);
    }
    assert(r.val() * r.spec_abs().val() == v);
}

/// The same of the four rotors of a rotor-force command.
pub proof fn law_rotor_force_is_given<S: Real>(
    params: QuadParams<S>,
    state: State<S>,
    cmd: [S; NUM_ROTORS],
    j: int,
)
    requires
        crate::scalar::exact::<S>(),
        params.k_eta.val() > 0real,
        0 <= j < NUM_ROTORS,
    ensures
        ({
            let r = RotorForce::spec_cmd_rotor_speeds(params, state, cmd)[j];
            params.k_eta.val() * (r.val() * r.spec_abs().val()) == cmd[j].val()
        }),
{
    law_speed_gives_force(cmd[j], params.k_eta);
    assert(j == 0 || j == 1 || j == 2 || j == 3);
}

} // verus!
