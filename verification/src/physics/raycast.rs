//! The aim resolver: of everything that a ray meets in the shooter's room,
//! the nearest thing that is not the shooter itself.

use vstd::prelude::*;
use crate::entity::{CollisionObjectHandle, Entity, Key};
use crate::physics::Aim;
use crate::physics::model::SystemView;
use crate::physics::registry::PhysicsSystem;
use crate::scalar::{Scalar, INFINITY_BITS};

verus! {

/// One intersection of a ray with a collision object: the time of impact
/// along the ray and the point of impact.
#[derive(Clone, Copy, Debug, PartialEq, Eq)]
pub struct RayHit {
    pub collision_object: CollisionObjectHandle,
    pub toi: Scalar,
    pub point: (Scalar, Scalar),
}

/// The nearest intersection found so far: its time of impact, positive
/// infinity while there is none, and whom and where the ray met.
#[derive(Clone, Copy, Debug, PartialEq, Eq)]
pub struct Nearest {
    pub toi: Scalar,
    pub target: Option<(Entity, (Scalar, Scalar))>,
}

/// How the resolution of one entity's aim ended.
#[derive(Clone, Copy, Debug, PartialEq, Eq, Structural)]
pub enum AimOutcome {
    /// The direction is zero: the entity is not aiming, and what it aimed at
    /// before stays as it was.
    NotAiming,
    /// The entity's room has no world: what it aimed at before stays as it
    /// was.
    MissingRoom,
    /// The target was derived anew from the intersections.
    Resolved,
}

/// The intersection is with something that belongs to a known entity other
/// than the shooter.
pub open spec fn eligible(
    colliders: Map<CollisionObjectHandle, Entity>,
    shooter: Entity,
    hit: RayHit,
) -> bool {
    colliders.dom().contains(hit.collision_object) && colliders[hit.collision_object] != shooter
}

/// The nearest of the eligible intersections of `hits`: the one with the
/// smallest time of impact, the earliest in `hits` among equals. An
/// intersection whose time is NaN is never chosen.
pub open spec fn nearest(
    colliders: Map<CollisionObjectHandle, Entity>,
    shooter: Entity,
    hits: Seq<RayHit>,
) -> Nearest
    decreases hits.len(),
{
    if hits.len() == 0 {
        Nearest { toi: Scalar { bits: INFINITY_BITS }, target: None }
    } else {
        let best = nearest(colliders, shooter, hits.drop_last());
        let hit = hits.last();
        if eligible(colliders, shooter, hit) && hit.toi.less(best.toi) {
            Nearest { toi: hit.toi, target: Some((colliders[hit.collision_object], hit.point)) }
        } else {
            best
        }
    }
}

impl Aim {
    /// The direction is not the zero vector.
    pub open spec fn directed(self) -> bool {
        !(self.aiming_toward.0.zero_valued() && self.aiming_toward.1.zero_valued())
    }

    /// The aim with its derived target replaced.
    pub open spec fn aimed_at(self, target: Option<(Entity, (Scalar, Scalar))>) -> Aim {
        Aim {
            aiming_at_entity: match target {
                Some(t) => Some(t.0),
                None => None,
            },
            aiming_at_point: match target {
                Some(t) => Some(t.1),
                None => None,
            },
            ..self
        }
    }

    /// Whether the direction is not the zero vector.
    pub fn has_direction(&self) -> (r: bool)
        ensures
            r == self.directed(),
    {
        !(self.aiming_toward.0.is_zero() && self.aiming_toward.1.is_zero())
    }
}

impl<W> SystemView<W> {
    /// How the resolution of `aim` for an entity of `room` ends.
    pub open spec fn aim_outcome(self, room: Entity, aim: Aim) -> AimOutcome {
        if !aim.directed() {
            AimOutcome::NotAiming
        } else if !self.rooms.dom().contains(room) {
            AimOutcome::MissingRoom
        } else {
            AimOutcome::Resolved
        }
    }

    /// The aim of `shooter`, an entity of `room`, after its ray met `hits`.
    pub open spec fn resolved_aim(
        self,
        room: Entity,
        shooter: Entity,
        aim: Aim,
        hits: Seq<RayHit>,
    ) -> Aim {
        if self.aim_outcome(room, aim) == AimOutcome::Resolved {
            aim.aimed_at(nearest(self.rooms[room].colliders, shooter, hits).target)
        } else {
            aim
        }
    }
}

impl<W> PhysicsSystem<W> {
    /// The entity behind `collision_object` in `room`.
    pub fn entity_of(&self, room: &Entity, collision_object: &CollisionObjectHandle) -> (r: Option<
        Entity,
    >)
        requires
            self.wf(),
        ensures
            r == self@.entity_behind(*room, *collision_object),
    {
        match self.physical_rooms.get(room) {
            Some(physical_room) => match physical_room.collision_object_to_entity.get(
                collision_object,
            ) {
                Some(entity) => Some(*entity),
                None => None,
            },
            None => None,
        }
    }

    /// Derives what `shooter`, an entity of `room`, aims at from the
    /// intersections of its ray with the room's collision world. With a zero
    /// direction, or in a room without a world, the aim stays as it is.
    /// Otherwise it is set to the nearest intersection with another entity,
    /// or cleared when there is none.
    pub fn resolve_aim(&self, room: &Entity, shooter: &Entity, aim: &mut Aim, hits: &Vec<RayHit>) -> (outcome:
        AimOutcome)
        requires
            self.wf(),
        ensures
            outcome == self@.aim_outcome(*room, *old(aim)),
            *final(aim) == self@.resolved_aim(*room, *shooter, *old(aim), hits@),
    {
        if !aim.has_direction() {
            return AimOutcome::NotAiming;
        }
        let physical_room = match self.physical_rooms.get(room) {
            Some(physical_room) => physical_room,
            None => {
                return AimOutcome::MissingRoom;
            },
        };
        let ghost colliders = physical_room.collision_object_to_entity@;
        let mut smallest_time_of_impact = Scalar::infinity();
        let mut aiming_at_entity: Option<Entity> = None;
        let mut aiming_at_point: Option<(Scalar, Scalar)> = None;
        let mut i: usize = 0;
        proof {
            assert(hits@.take(0) =~= Seq::<RayHit>::empty());
        }
        while i < hits.len()
            invariant
                i <= hits@.len(),
                physical_room.collision_object_to_entity.wf(),
                colliders == physical_room.collision_object_to_entity@,
                smallest_time_of_impact == nearest(colliders, *shooter, hits@.take(i as int)).toi,
                old(aim).aimed_at(nearest(colliders, *shooter, hits@.take(i as int)).target)
                    == (Aim { aiming_at_entity, aiming_at_point, ..*old(aim) }),
            decreases hits@.len() - i,
        {
            let hit = hits[i];
            proof {
                let longer = hits@.take(i as int + 1);
                assert(longer.drop_last() =~= hits@.take(i as int));
                assert(longer.last() == hit);
            }
            match physical_room.collision_object_to_entity.get(&hit.collision_object) {
                Some(intersected_entity) => {
                    if !shooter.same(intersected_entity) {
                        if smallest_time_of_impact.gt(&hit.toi) {
                            smallest_time_of_impact = hit.toi;
                            aiming_at_point = Some(hit.point);
                            aiming_at_entity = Some(*intersected_entity);
                        }
                    }
                },
                None => {},
            }
            i += 1;
        }
        proof {
            assert(hits@.take(hits@.len() as int) =~= hits@);
        }
        aim.aiming_at_point = aiming_at_point;
        aim.aiming_at_entity = aiming_at_entity;
        AimOutcome::Resolved
    }
}

impl<W> PhysicsSystem<W> {
    /// Resolves the aim of `shooter`, an entity of `room`. With a zero
    /// direction, or in a room without a world, no ray is cast and the aim
    /// stays as it is. Otherwise `cast` casts the ray in the room's world,
    /// and the aim is set to the nearest intersection with another entity,
    /// or cleared when there is none.
    pub fn aim_at<C: FnOnce(&W) -> Vec<RayHit>>(
        &self,
        room: &Entity,
        shooter: &Entity,
        aim: &mut Aim,
        cast: C,
    ) -> (outcome: AimOutcome)
        requires
            self.wf(),
            forall|world: &W| cast.requires((world,)),
        ensures
            outcome == self@.aim_outcome(*room, *old(aim)),
            outcome != AimOutcome::Resolved ==> *final(aim) == *old(aim),
            outcome == AimOutcome::Resolved ==> exists|hits: Vec<RayHit>|
                #[trigger] cast.ensures((&self@.rooms[*room].world,), hits) && *final(aim)
                    == self@.resolved_aim(*room, *shooter, *old(aim), hits@),
    {
        if !aim.has_direction() {
            return AimOutcome::NotAiming;
        }
        match self.world(room) {
            Some(world) => {
                let hits = cast(world);
                self.resolve_aim(room, shooter, aim, &hits)
            },
            None => AimOutcome::MissingRoom,
        }
    }
}

/// The nearest intersection is never with the shooter, it is one of the
/// eligible intersections, and no eligible intersection has a smaller time of
/// impact. It is missing exactly when no eligible intersection has a time of
/// impact below infinity.
pub proof fn nearest_is_nearest(
    colliders: Map<CollisionObjectHandle, Entity>,
    shooter: Entity,
    hits: Seq<RayHit>,
)
    ensures
        ({
            let found = nearest(colliders, shooter, hits);
            &&& !found.toi.nan()
            &&& forall|j: int|
                0 <= j < hits.len() && eligible(colliders, shooter, #[trigger] hits[j])
                    ==> !hits[j].toi.less(found.toi)
            &&& match found.target {
                Some((entity, point)) => entity != shooter && exists|i: int|
                    0 <= i < hits.len() && eligible(colliders, shooter, #[trigger] hits[i])
                        && colliders[hits[i].collision_object] == entity && hits[i].point == point
                        && hits[i].toi == found.toi,
                None => found.toi.bits == INFINITY_BITS && forall|j: int|
                    0 <= j < hits.len() && eligible(colliders, shooter, #[trigger] hits[j])
                        ==> !hits[j].toi.less(Scalar { bits: INFINITY_BITS }),
            }
        }),
    decreases hits.len(),
{
    if hits.len() > 0 {
        let earlier = hits.drop_last();
        nearest_is_nearest(colliders, shooter, earlier);
        let best = nearest(colliders, shooter, earlier);
        let found = nearest(colliders, shooter, hits);
        let hit = hits.last();
        assert forall|j: int|
            0 <= j < hits.len() && eligible(colliders, shooter, #[trigger] hits[j])
                implies !hits[j].toi.less(found.toi) by {
            if j < earlier.len() {
                assert(hits[j] == earlier[j]);
            }
        }
        if eligible(colliders, shooter, hit) && hit.toi.less(best.toi) {
            assert(hits[hits.len() - 1] == hit);
        } else {
            match best.target {
                Some((entity, point)) => {
                    let i = choose|i: int|
                        0 <= i < earlier.len() && eligible(colliders, shooter, #[trigger] earlier[i])
                            && colliders[earlier[i].collision_object] == entity && earlier[i].point
                            == point && earlier[i].toi == best.toi;
                    assert(hits[i] == earlier[i]);
                },
                None => {
                    assert forall|j: int|
                        0 <= j < hits.len() && eligible(colliders, shooter, #[trigger] hits[j])
                            implies !hits[j].toi.less(Scalar { bits: INFINITY_BITS }) by {
                        if j < earlier.len() {
                            assert(hits[j] == earlier[j]);
                        }
                    }
                },
            }
        }
    }
}

} // verus!
