//! Vehicle state and the packed vector that the integrator works on.
//!
//! Layout: `s[0..3]` position, `s[3..6]` velocity, `s[6..10]` quaternion `[i, j, k, w]`,
//! `s[10..13]` body rate, `s[13..16]` wind, `s[16..20]` rotor speeds.
use vstd::prelude::*;

use crate::linalg::{Quat, Vec3};
use crate::params::NUM_ROTORS;
use crate::scalar::Scalar;

verus! {

pub const STATE_LEN: usize = 16 + NUM_ROTORS;

#[derive(Clone, Copy, Debug)]
pub struct State<S> {
    pub x: Vec3<S>,
    pub v: Vec3<S>,
    pub q: Quat<S>,
    pub w: Vec3<S>,
    pub wind: Vec3<S>,
    pub rotor_speeds: [S; NUM_ROTORS],
}

impl<S: Scalar> State<S> {
    pub open spec fn spec_pack(self) -> Seq<S> {
        seq![
            self.x.x, self.x.y, self.x.z,
            self.v.x, self.v.y, self.v.z,
            self.q.i, self.q.j, self.q.k, self.q.w,
            self.w.x, self.w.y, self.w.z,
            self.wind.x, self.wind.y, self.wind.z,
            self.rotor_speeds[0], self.rotor_speeds[1],
            self.rotor_speeds[2], self.rotor_speeds[3],
        ]
    }

    pub open spec fn spec_unpack(s: Seq<S>) -> Self {
        State {
            x: Vec3 { x: s[0], y: s[1], z: s[2] },
            v: Vec3 { x: s[3], y: s[4], z: s[5] },
            q: Quat { i: s[6], j: s[7], k: s[8], w: s[9] },
            w: Vec3 { x: s[10], y: s[11], z: s[12] },
            wind: Vec3 { x: s[13], y: s[14], z: s[15] },
            rotor_speeds: [s[16], s[17], s[18], s[19]],
        }
    }

    pub fn pack(&self) -> (r: [S; STATE_LEN])
        ensures
            r@ == self.spec_pack(),
    {
        let q = self.q.to_array();
        let m = &self.rotor_speeds;
        let r = [
            self.x.x, self.x.y, self.x.z,
            self.v.x, self.v.y, self.v.z,
            q[0], q[1], q[2], q[3],
            self.w.x, self.w.y, self.w.z,
            self.wind.x, self.wind.y, self.wind.z,
            m[0], m[1], m[2], m[3],
        ];
        assert(r@ =~= self.spec_pack());
        r
    }

    pub fn unpack(s: &[S; STATE_LEN]) -> (r: Self)
        ensures
            r == Self::spec_unpack(s@),
    {
        State {
            x: Vec3::new(s[0], s[1], s[2]),
            v: Vec3::new(s[3], s[4], s[5]),
            q: Quat::new(s[6], s[7], s[8], s[9]),
            w: Vec3::new(s[10], s[11], s[12]),
            wind: Vec3::new(s[13], s[14], s[15]),
            rotor_speeds: [s[16], s[17], s[18], s[19]],
        }
    }
}

/// A state comes back from its packed form unchanged.
pub proof fn law_unpack_pack<S: Scalar>(st: State<S>)
    ensures
        State::spec_unpack(st.spec_pack()) == st,
{
    assert(State::spec_unpack(st.spec_pack()).rotor_speeds =~= st.rotor_speeds);
}

/// A packed vector comes back from the state it describes unchanged.
pub proof fn law_pack_unpack<S: Scalar>(s: Seq<S>)
    requires
        s.len() == STATE_LEN,
    ensures
        State::spec_unpack(s).spec_pack() == s,
{
    assert(State::spec_unpack(s).spec_pack() =~= s);
}

} // verus!
