//! The collision aggregator: what a tick's contacts leave in the collision
//! state of the entities that they touch.

use vstd::prelude::*;
use crate::entity::{CollisionObjectHandle, Entity};
use crate::physics::CollisionSet;
use crate::physics::model::SystemView;
use crate::physics::registry::PhysicsSystem;
use crate::scalar::Scalar;

verus! {

/// The contacts between two collision objects: the normal of each contact,
/// as the first of the two sees it.
pub struct ContactManifold {
    pub collision_object1: CollisionObjectHandle,
    pub collision_object2: CollisionObjectHandle,
    pub normals: Vec<(Scalar, Scalar)>,
}

/// The two collision objects and the normals of a [`ContactManifold`].
pub struct ManifoldView {
    pub collision_object1: CollisionObjectHandle,
    pub collision_object2: CollisionObjectHandle,
    pub normals: Seq<(Scalar, Scalar)>,
}

impl ContactManifold {
    /// The two collision objects and the normals.
    pub open spec fn view(&self) -> ManifoldView {
        ManifoldView {
            collision_object1: self.collision_object1,
            collision_object2: self.collision_object2,
            normals: self.normals@,
        }
    }
}

/// The views of the manifolds of `manifolds`.
pub open spec fn manifold_views(manifolds: Seq<ContactManifold>) -> Seq<ManifoldView> {
    manifolds.map_values(|m: ContactManifold| m@)
}

/// The normal with both components negated.
pub open spec fn opposite_of(normal: (Scalar, Scalar)) -> (Scalar, Scalar) {
    (normal.0.negated(), normal.1.negated())
}

/// Gives a normal to `entity`.
pub open spec fn given_to(entity: Entity) -> spec_fn((Scalar, Scalar)) -> (
    Entity,
    (Scalar, Scalar),
) {
    |normal: (Scalar, Scalar)| (entity, normal)
}

/// Gives the opposite of a normal to `entity`.
pub open spec fn opposite_given_to(entity: Entity) -> spec_fn((Scalar, Scalar)) -> (
    Entity,
    (Scalar, Scalar),
) {
    |normal: (Scalar, Scalar)| (entity, opposite_of(normal))
}

impl<W> SystemView<W> {
    /// What the contacts of one manifold of `room` add to whom: every normal
    /// to the entity behind the first collision object, then the opposite of
    /// every normal to the entity behind the second. A side that the room
    /// knows no entity for gets nothing.
    pub open spec fn manifold_normals(self, room: Entity, manifold: ManifoldView) -> Seq<
        (Entity, (Scalar, Scalar)),
    > {
        (match self.entity_behind(room, manifold.collision_object1) {
            Some(entity) => manifold.normals.map_values(given_to(entity)),
            None => Seq::empty(),
        }) + (match self.entity_behind(room, manifold.collision_object2) {
            Some(entity) => manifold.normals.map_values(opposite_given_to(entity)),
            None => Seq::empty(),
        })
    }

    /// What the contacts of the manifolds of `room` add to whom, manifold
    /// after manifold.
    pub open spec fn contact_normals(self, room: Entity, manifolds: Seq<ManifoldView>) -> Seq<
        (Entity, (Scalar, Scalar)),
    >
        decreases manifolds.len(),
    {
        if manifolds.len() == 0 {
            Seq::empty()
        } else {
            self.contact_normals(room, manifolds.drop_last()) + self.manifold_normals(
                room,
                manifolds.last(),
            )
        }
    }
}

impl CollisionSet {
    /// The state at the start of the aggregation: no contact yet, the
    /// accumulated normal at zero; what is remembered of the last contact
    /// stays.
    pub open spec fn cleared(self) -> CollisionSet {
        CollisionSet {
            colliding: false,
            collision_normal: (Scalar { bits: 0 }, Scalar { bits: 0 }),
            ..self
        }
    }

    /// The state with one more contact, which brought the accumulated normal
    /// to `accumulated`.
    pub open spec fn touched(self, accumulated: (Scalar, Scalar)) -> CollisionSet {
        CollisionSet { colliding: true, collision_normal: accumulated, ..self }
    }

    /// The state at the end of the aggregation. After a tick with a contact
    /// the accumulated normal is remembered and the time since the last
    /// contact starts again at zero. After a tick without one the remembered
    /// normal stays as it is and the time becomes `advanced`.
    pub open spec fn settled(self, advanced: Scalar) -> CollisionSet {
        if self.colliding {
            CollisionSet {
                last_collision_normal: self.collision_normal,
                time_since_collision: Scalar { bits: 0 },
                ..self
            }
        } else {
            CollisionSet { time_since_collision: advanced, ..self }
        }
    }

    /// Starts the aggregation of a tick.
    pub fn reset(&mut self)
        ensures
            *final(self) == old(self).cleared(),
    {
        self.colliding = false;
        self.collision_normal = (Scalar::zero(), Scalar::zero());
    }

    /// Records a contact with the given normal: the normal is added to the
    /// accumulated normal, component by component, with the addition `sum`
    /// of the caller.
    pub fn touch<A: Fn(Scalar, Scalar) -> Scalar>(&mut self, normal: (Scalar, Scalar), sum: A)
        requires
            forall|a: Scalar, b: Scalar| sum.requires((a, b)),
        ensures
            sum.ensures((old(self).collision_normal.0, normal.0), final(self).collision_normal.0),
            sum.ensures((old(self).collision_normal.1, normal.1), final(self).collision_normal.1),
            *final(self) == old(self).touched(final(self).collision_normal),
    {
        let x = sum(self.collision_normal.0, normal.0);
        let y = sum(self.collision_normal.1, normal.1);
        self.collision_normal = (x, y);
        self.colliding = true;
    }

    /// Ends the aggregation of a tick of length `dt`. After a tick with a
    /// contact the accumulated normal is remembered and the time since the
    /// last contact starts again at zero. After a tick without one, `dt` is
    /// added to the time with the addition `sum` of the caller, and what is
    /// remembered stays.
    pub fn settle<A: Fn(Scalar, Scalar) -> Scalar>(&mut self, dt: Scalar, sum: A)
        requires
            forall|a: Scalar, b: Scalar| sum.requires((a, b)),
        ensures
            old(self).colliding ==> *final(self) == old(self).settled(Scalar { bits: 0 }),
            !old(self).colliding ==> sum.ensures(
                (old(self).time_since_collision, dt),
                final(self).time_since_collision,
            ) && *final(self) == old(self).settled(final(self).time_since_collision),
    {
        if self.colliding {
            self.last_collision_normal = self.collision_normal;
            self.time_since_collision = Scalar::zero();
        } else {
            self.time_since_collision = sum(self.time_since_collision, dt);
        }
    }
}

/// The normal of a contact as the second of the two touching entities sees
/// it: the opposite of what the first one sees.
pub fn opposite(normal: (Scalar, Scalar)) -> (r: (Scalar, Scalar))
    ensures
        r == opposite_of(normal),
{
    (normal.0.neg(), normal.1.neg())
}

impl<W> PhysicsSystem<W> {
    /// The entities behind the two collision objects of a contact in `room`,
    /// as far as the room knows them.
    pub fn contact_sides(
        &self,
        room: &Entity,
        collision_object1: &CollisionObjectHandle,
        collision_object2: &CollisionObjectHandle,
    ) -> (r: (Option<Entity>, Option<Entity>))
        requires
            self.wf(),
        ensures
            r.0 == self@.entity_behind(*room, *collision_object1),
            r.1 == self@.entity_behind(*room, *collision_object2),
    {
        (self.entity_of(room, collision_object1), self.entity_of(room, collision_object2))
    }
}

impl<W> PhysicsSystem<W> {
    /// Says which entity each contact of `room` touches and with which
    /// normal: for every manifold in turn, the entity behind its first
    /// collision object with every normal, then the entity behind its second
    /// with the opposite of every normal. The normals are to be added to the
    /// collision state of their entity in this order.
    pub fn contact_normals(&self, room: &Entity, manifolds: &Vec<ContactManifold>) -> (r: Vec<
        (Entity, (Scalar, Scalar)),
    >)
        requires
            self.wf(),
        ensures
            r@ == self@.contact_normals(*room, manifold_views(manifolds@)),
    {
        let ghost views = manifold_views(manifolds@);
        let mut touched: Vec<(Entity, (Scalar, Scalar))> = Vec::new();
        let mut i: usize = 0;
        proof {
            assert(views.take(0) =~= Seq::<ManifoldView>::empty());
        }
        while i < manifolds.len()
            invariant
                i <= manifolds@.len(),
                self.wf(),
                views == manifold_views(manifolds@),
                touched@ == self@.contact_normals(*room, views.take(i as int)),
            decreases manifolds@.len() - i,
        {
            let manifold = &manifolds[i];
            let ghost earlier = touched@;
            let ghost normals = manifold.normals@;
            proof {
                let longer = views.take(i as int + 1);
                assert(longer.drop_last() =~= views.take(i as int));
                assert(longer.last() == manifold@);
            }
            let (entity1, entity2) = self.contact_sides(
                room,
                &manifold.collision_object1,
                &manifold.collision_object2,
            );
            match entity1 {
                Some(entity) => {
                    let mut j: usize = 0;
                    proof {
                        assert(normals.take(0).map_values(given_to(entity))
                            =~= Seq::<(Entity, (Scalar, Scalar))>::empty());
                    }
                    while j < manifold.normals.len()
                        invariant
                            j <= normals.len(),
                            normals == manifold.normals@,
                            touched@ == earlier + normals.take(j as int).map_values(
                                given_to(entity),
                            ),
                        decreases normals.len() - j,
                    {
                        proof {
                            assert(normals.take(j as int + 1).map_values(given_to(entity))
                                =~= normals.take(j as int).map_values(given_to(entity)).push(
                                (entity, normals[j as int]),
                            ));
                        }
                        touched.push((entity, manifold.normals[j]));
                        j += 1;
                    }
                    proof {
                        assert(normals.take(normals.len() as int) =~= normals);
                    }
                },
                None => {
                    proof {
                        assert(touched@ =~= earlier + Seq::<(Entity, (Scalar, Scalar))>::empty());
                    }
                },
            }
            let ghost first = touched@;
            match entity2 {
                Some(entity) => {
                    let mut j: usize = 0;
                    proof {
                        assert(normals.take(0).map_values(opposite_given_to(entity))
                            =~= Seq::<(Entity, (Scalar, Scalar))>::empty());
                    }
                    while j < manifold.normals.len()
                        invariant
                            j <= normals.len(),
                            normals == manifold.normals@,
                            touched@ == first + normals.take(j as int).map_values(
                                opposite_given_to(entity),
                            ),
                        decreases normals.len() - j,
                    {
                        proof {
                            assert(normals.take(j as int + 1).map_values(opposite_given_to(entity))
                                =~= normals.take(j as int).map_values(
                                opposite_given_to(entity),
                            ).push((entity, opposite_of(normals[j as int]))));
                        }
                        touched.push((entity, opposite(manifold.normals[j])));
                        j += 1;
                    }
                    proof {
                        assert(normals.take(normals.len() as int) =~= normals);
                    }
                },
                None => {
                    proof {
                        assert(touched@ =~= first + Seq::<(Entity, (Scalar, Scalar))>::empty());
                    }
                },
            }
            proof {
                let step = self@.manifold_normals(*room, manifold@);
                assert(touched@ =~= earlier + step);
            }
            i += 1;
        }
        proof {
            assert(views.take(manifolds@.len() as int) =~= views);
        }
        touched
    }
}

/// While nothing touches an entity, tick after tick, what it remembers of its
/// last contact does not change, whatever the time becomes.
pub proof fn remembered_normal_stays(set: CollisionSet, advanced: Scalar)
    ensures
        set.cleared().settled(advanced).last_collision_normal == set.last_collision_normal,
        set.cleared().settled(advanced).time_since_collision == advanced,
        !set.cleared().settled(advanced).colliding,
{
}

/// A tick with a contact remembers the accumulated normal and restarts the
/// time.
pub proof fn contact_is_remembered(set: CollisionSet, accumulated: (Scalar, Scalar), advanced: Scalar)
    ensures
        set.cleared().touched(accumulated).settled(advanced).last_collision_normal == accumulated,
        set.cleared().touched(accumulated).settled(advanced).time_since_collision.bits == 0,
        set.cleared().touched(accumulated).settled(advanced).colliding,
{
}

} // verus!
