//! The force applicator: which body a force goes to, which impulse is safe
//! to add to a velocity, and the forces that are staged for the steps of the
//! simulation.

use vstd::prelude::*;
use crate::entity::{BodyHandle, Entity, ForceGeneratorHandle};
use crate::physics::{Force, Velocity};
use crate::physics::model::SystemView;
use crate::physics::registry::PhysicsSystem;
use crate::scalar::Scalar;
use crate::table::Table;

verus! {

/// What is written when a NaN was taken out of a force.
pub const NAN_DIAGNOSTIC: &'static str = "NaN eradicated.";

/// The component as it may enter the simulation: zero in place of a NaN,
/// the component itself otherwise.
pub open spec fn without_nan(component: Scalar) -> Scalar {
    if component.nan() {
        Scalar { bits: 0 }
    } else {
        component
    }
}

/// The component as it may enter the simulation.
pub fn sanitized_component(component: Scalar) -> (r: Scalar)
    ensures
        r == without_nan(component),
        !r.nan(),
{
    if component.is_nan() {
        Scalar::zero()
    } else {
        component
    }
}

impl Force {
    /// A component of the impulse is NaN.
    pub open spec fn impulse_invalid(self) -> bool {
        self.impulse.0.nan() || self.impulse.1.nan()
    }

    /// The impulse that may be added to a velocity: each component that is
    /// NaN is replaced by zero, and the other component stays.
    pub open spec fn safe_impulse(self) -> (Scalar, Scalar) {
        (without_nan(self.impulse.0), without_nan(self.impulse.1))
    }

    /// A component of the continuous force is NaN.
    pub open spec fn continuous_invalid(self) -> bool {
        self.continuous.0.nan() || self.continuous.1.nan()
    }

    /// The continuous force that may be applied to a body: each component
    /// that is NaN is replaced by zero, and the other component stays.
    pub open spec fn safe_continuous(self) -> (Scalar, Scalar) {
        (without_nan(self.continuous.0), without_nan(self.continuous.1))
    }

    /// The force with every NaN component replaced by zero.
    pub open spec fn sanitized(self) -> Force {
        Force { continuous: self.safe_continuous(), impulse: self.safe_impulse() }
    }

    /// Replaces every NaN component of the force by zero. Tells whether
    /// anything was replaced, so that the caller can say so.
    pub fn sanitize(&mut self) -> (eradicated: bool)
        ensures
            *final(self) == old(self).sanitized(),
            eradicated == (old(self).continuous_invalid() || old(self).impulse_invalid()),
            !final(self).continuous_invalid(),
            !final(self).impulse_invalid(),
    {
        let eradicated = self.has_invalid_continuous() || self.has_invalid_impulse();
        self.continuous = self.sanitized_continuous();
        self.impulse = self.sanitized_impulse();
        eradicated
    }

    /// Whether a component of the impulse is NaN.
    pub fn has_invalid_impulse(&self) -> (r: bool)
        ensures
            r == self.impulse_invalid(),
    {
        self.impulse.0.is_nan() || self.impulse.1.is_nan()
    }

    /// Whether a component of the continuous force is NaN.
    pub fn has_invalid_continuous(&self) -> (r: bool)
        ensures
            r == self.continuous_invalid(),
    {
        self.continuous.0.is_nan() || self.continuous.1.is_nan()
    }

    /// The impulse to add to the velocity of the body: no component of it is
    /// NaN.
    pub fn sanitized_impulse(&self) -> (impulse: (Scalar, Scalar))
        ensures
            impulse == self.safe_impulse(),
            !impulse.0.nan(),
            !impulse.1.nan(),
    {
        (sanitized_component(self.impulse.0), sanitized_component(self.impulse.1))
    }

    /// The continuous force to apply to the body: no component of it is NaN.
    pub fn sanitized_continuous(&self) -> (continuous: (Scalar, Scalar))
        ensures
            continuous == self.safe_continuous(),
            !continuous.0.nan(),
            !continuous.1.nan(),
    {
        (sanitized_component(self.continuous.0), sanitized_component(self.continuous.1))
    }
}

impl Velocity {
    /// No component is NaN.
    pub open spec fn valid(self) -> bool {
        !self.x.nan() && !self.y.nan()
    }

    /// Whether no component is NaN. A velocity that comes out of the
    /// simulation with a NaN is beyond repair.
    pub fn is_valid(&self) -> (r: bool)
        ensures
            r == self.valid(),
    {
        !self.x.is_nan() && !self.y.is_nan()
    }
}

/// A velocity after an impulse, and whether a NaN was taken out of the
/// impulse on the way, which is to be written down with [`NAN_DIAGNOSTIC`].
#[derive(Clone, Copy, Debug, PartialEq, Eq)]
pub struct Impelled {
    pub velocity: Velocity,
    pub eradicated: bool,
}

impl Force {
    /// Adds the impulse to `velocity`, component by component, with the
    /// addition `sum` of the caller. A component of the impulse that is NaN
    /// counts as zero, and the answer says whether there was one. The
    /// velocity itself is to be valid.
    pub fn apply_impulse<A: Fn(Scalar, Scalar) -> Scalar>(&self, velocity: Velocity, sum: A) -> (after:
        Impelled)
        requires
            velocity.valid(),
            forall|a: Scalar, b: Scalar| sum.requires((a, b)),
        ensures
            sum.ensures((velocity.x, self.safe_impulse().0), after.velocity.x),
            sum.ensures((velocity.y, self.safe_impulse().1), after.velocity.y),
            after.eradicated == self.impulse_invalid(),
    {
        let impulse = self.sanitized_impulse();
        Impelled {
            velocity: Velocity { x: sum(velocity.x, impulse.0), y: sum(velocity.y, impulse.1) },
            eradicated: self.has_invalid_impulse(),
        }
    }
}

impl<W> SystemView<W> {
    /// Where a continuous force on `entity`, an object of `room`, is staged:
    /// the room's force generator, and the entity's body.
    pub open spec fn force_target(self, room: Entity, entity: Entity) -> Option<
        (ForceGeneratorHandle, BodyHandle),
    > {
        match self.object_of(entity, room) {
            Some(object) => Some((self.rooms[room].force_generator, object.body_handle)),
            None => None,
        }
    }
}

impl<W> PhysicsSystem<W> {
    /// Where a continuous force on `entity`, an object of `room`, is staged.
    pub fn force_target(&self, room: &Entity, entity: &Entity) -> (r: Option<
        (ForceGeneratorHandle, BodyHandle),
    >)
        requires
            self.wf(),
        ensures
            r == self@.force_target(*room, *entity),
    {
        match self.physical_rooms.get(room) {
            Some(physical_room) => match physical_room.physical_objects.get(entity) {
                Some(physical_object) => Some(
                    (physical_room.force_generator, physical_object.body_handle),
                ),
                None => None,
            },
            None => None,
        }
    }

    /// The body of `entity`, an object of `room_entity`, to which an impulse
    /// is applied.
    pub fn get_rigid_body(&self, entity: &Entity, room_entity: &Entity) -> (r: Option<BodyHandle>)
        requires
            self.wf(),
        ensures
            r == self@.body_of_object(*entity, *room_entity),
    {
        match self.tracked_object(room_entity, entity) {
            Some(physical_object) => Some(physical_object.body_handle),
            None => None,
        }
    }
}

/// The continuous forces of one room, staged by body. The generator applies
/// each of them on every step of the simulation, and drops the entry of a
/// body that is no longer in the world. No force that it holds has a NaN
/// component.
pub struct CustomForceGenerator {
    bodies: Table<BodyHandle, Force>,
}

impl CustomForceGenerator {
    /// The staged forces.
    pub closed spec fn view(&self) -> Map<BodyHandle, Force> {
        self.bodies@
    }

    /// The bodies with a staged force, first staged first.
    pub closed spec fn order(&self) -> Seq<BodyHandle> {
        self.bodies.order()
    }

    /// Every body is staged once, and no staged force has a NaN component.
    pub closed spec fn wf(&self) -> bool {
        &&& self.bodies.wf()
        &&& forall|body: BodyHandle| #[trigger]
            self.bodies@.dom().contains(body) ==> !self.bodies@[body].continuous_invalid()
                && !self.bodies@[body].impulse_invalid()
    }

    /// No staged force has a NaN component.
    pub proof fn lemma_no_nan(&self, body: BodyHandle)
        requires
            self.wf(),
            self@.dom().contains(body),
        ensures
            !self@[body].continuous_invalid(),
            !self@[body].impulse_invalid(),
    {
    }

    /// The bodies in order are the bodies with a staged force, each once.
    pub proof fn lemma_order(&self)
        requires
            self.wf(),
        ensures
            self.order().no_duplicates(),
            forall|body: BodyHandle| self@.dom().contains(body) <==> self.order().contains(body),
    {
        self.bodies.lemma_order();
    }

    /// A generator with nothing staged.
    pub fn new() -> (g: Self)
        ensures
            g.wf(),
            g@ == Map::<BodyHandle, Force>::empty(),
            g.order() == Seq::<BodyHandle>::empty(),
    {
        CustomForceGenerator { bodies: Table::new() }
    }

    /// Stages `force` for `body`, in place of what was staged for it. Every
    /// NaN component of the force is replaced by zero on the way. Tells
    /// whether the continuous force had one, which is to be written down
    /// with [`NAN_DIAGNOSTIC`].
    pub fn stage(&mut self, body: BodyHandle, force: Force) -> (eradicated: bool)
        requires
            old(self).wf(),
        ensures
            final(self).wf(),
            final(self)@ == old(self)@.insert(body, force.sanitized()),
            eradicated == force.continuous_invalid(),
            old(self)@.dom().contains(body) ==> final(self).order() == old(self).order(),
            !old(self)@.dom().contains(body) ==> final(self).order() == old(self).order().push(
                body,
            ),
    {
        let eradicated = force.has_invalid_continuous();
        let mut staged = force;
        staged.sanitize();
        self.bodies.insert(body, staged);
        eradicated
    }

    /// The number of bodies with a staged force.
    pub fn len(&self) -> (n: usize)
        requires
            self.wf(),
        ensures
            n == self.order().len(),
    {
        self.bodies.len()
    }

    /// The body at place `i` of the order, and the force staged for it.
    pub fn staged_at(&self, i: usize) -> (r: (BodyHandle, Force))
        requires
            self.wf(),
            i < self.order().len(),
        ensures
            r.0 == self.order()[i as int],
            self@.dom().contains(r.0),
            r.1 == self@[r.0],
            !r.1.continuous_invalid(),
            !r.1.impulse_invalid(),
    {
        (self.bodies.key_at(i), *self.bodies.value_at(i))
    }

    /// The force staged for `body`.
    pub fn staged_for(&self, body: &BodyHandle) -> (r: Option<Force>)
        requires
            self.wf(),
        ensures
            match r {
                Some(force) => self@.dom().contains(*body) && force == self@[*body]
                    && !force.continuous_invalid() && !force.impulse_invalid(),
                None => !self@.dom().contains(*body),
            },
    {
        match self.bodies.get(body) {
            Some(force) => Some(*force),
            None => None,
        }
    }

    /// Drops what is staged for every body that is no longer in the world,
    /// as the question `alive` of the caller tells. What is staged for the
    /// other bodies stays as it is.
    pub fn discard_missing<E: Fn(BodyHandle) -> bool>(&mut self, alive: E)
        requires
            old(self).wf(),
            forall|body: BodyHandle| alive.requires((body,)),
        ensures
            final(self).wf(),
            forall|body: BodyHandle| #[trigger]
                final(self)@.dom().contains(body) ==> old(self)@.dom().contains(body)
                    && final(self)@[body] == old(self)@[body] && alive.ensures((body,), true),
            forall|body: BodyHandle|
                old(self)@.dom().contains(body) && !(#[trigger] final(self)@.dom().contains(body))
                    ==> alive.ensures((body,), false),
    {
        let mut i: usize = 0;
        while i < self.bodies.len()
            invariant
                self.bodies.wf(),
                i <= self.bodies.order().len(),
                forall|body: BodyHandle| #[trigger]
                    self.bodies@.dom().contains(body) ==> old(self)@.dom().contains(body)
                        && self.bodies@[body] == old(self)@[body],
                forall|body: BodyHandle|
                    old(self)@.dom().contains(body) && !(#[trigger] self.bodies@.dom().contains(
                        body,
                    )) ==> alive.ensures((body,), false),
                forall|j: int|
                    0 <= j < i ==> alive.ensures((#[trigger] self.bodies.order()[j],), true),
                forall|body: BodyHandle| alive.requires((body,)),
            decreases self.bodies.order().len() - i,
        {
            let body = self.bodies.key_at(i);
            if alive(body) {
                i += 1;
            } else {
                let ghost before = self.bodies.order();
                self.bodies.remove_at(i);
                proof {
                    assert forall|j: int| 0 <= j < i implies alive.ensures(
                        (#[trigger] self.bodies.order()[j],),
                        true,
                    ) by {
                        assert(self.bodies.order()[j] == before[j]);
                    }
                }
            }
        }
        proof {
            self.bodies.lemma_order();
            assert forall|body: BodyHandle| #[trigger]
                self.bodies@.dom().contains(body) implies alive.ensures((body,), true) by {
                let j = self.bodies.order().index_of(body);
                assert(0 <= j < self.bodies.order().len() && self.bodies.order()[j] == body);
            }
        }
    }

    /// Drops what is staged for `body`: the body is no longer in the world.
    pub fn discard(&mut self, body: &BodyHandle) -> (r: Option<Force>)
        requires
            old(self).wf(),
        ensures
            final(self).wf(),
            final(self)@ == old(self)@.remove(*body),
            match r {
                Some(force) => old(self)@.dom().contains(*body) && force == old(self)@[*body]
                    && final(self).order() == old(self).order().remove(
                    old(self).order().index_of(*body),
                ),
                None => !old(self)@.dom().contains(*body) && final(self).order() == old(
                    self,
                ).order(),
            },
    {
        self.bodies.remove(body)
    }
}

} // verus!
