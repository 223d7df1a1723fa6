//! Deterministic fixed-point 2D collision detection and resolution.
//!
//! Axis-aligned boxes attached to bodies are stored in generational arenas;
//! a simulation world steps the bodies on a fixed tick, resolves
//! penetrations, diffs touching pairs into start/stop contact events, and
//! answers spatial queries (box overlap tests and ray casts).

mod body;
mod collider;
mod event;
mod fp;
mod handle;
mod query;
mod shape;
mod step;
mod vector2;
mod world;

pub use fp::EPSILON;
pub use fp::FP;
pub use fp::ONE_BITS;
pub use fp::fp_abs;
pub use fp::fp_add;
pub use fp::fp_div;
pub use fp::fp_mul;
pub use fp::fp_neg;
pub use fp::fp_sqrt;
pub use fp::fp_sub;
pub use fp::iabs;
pub use fp::isqrt;
pub use fp::lemma_isqrt_bounds;
pub use fp::sat64;
pub use fp::to_fp;
pub use fp::trunc_div;

pub use vector2::Vec2;
pub use vector2::lemma_len_sq_nonneg;
pub use vector2::spec_len_sq;
pub use vector2::spec_vabs;
pub use vector2::spec_vadd;
pub use vector2::spec_vscale;
pub use vector2::spec_vsub;

pub use shape::AABB;
pub use shape::Contact;
pub use shape::ContactManifold;
pub use shape::Shape;
pub use shape::collision_aabb_aabb;
pub use shape::collision_aabb_aabb_manifold;
pub use shape::lemma_best_contact_depth_bound;
pub use shape::lemma_full_correction_separates_axis;
pub use shape::lemma_overlap_symmetric;
pub use shape::spec_best_contact;
pub use shape::spec_contact_x;
pub use shape::spec_contact_y;
pub use shape::spec_manifold;
pub use shape::spec_overlap;
pub use shape::spec_overlap_1d;
pub use shape::spec_sign_unit;

pub use handle::BodyHandle;
pub use handle::ColliderHandle;
pub use handle::PhysicsError;

pub use body::Body;
pub use body::BodySet;
pub use body::BodySlot;
pub use body::BodyStatus;
pub use body::body_at_in;
pub use body::body_valid_at;
pub use body::same_body_except_colliders;

pub use collider::Collider;
pub use collider::ColliderSet;
pub use collider::ColliderSlot;
pub use collider::ColliderState;

pub use event::ContactEvent;

pub use step::coord_small;
pub use step::lemma_resolve_separates_from_static;
pub use step::moved_by_velocity;
pub use step::moved_slot_by_velocity;
pub use step::pair_coords_small;
pub use step::spec_apply_movement;
pub use step::spec_detect_resolve;
pub use step::spec_move_slot;
pub use step::spec_pass_from;
pub use step::spec_pass_row;
pub use step::spec_push_body;
pub use step::spec_resolve;
pub use step::spec_step;
pub use step::spec_visit_pair;

pub use world::ContactInfo;
pub use world::PhysicsWorld;
pub use world::TouchEntry;
pub use world::TouchKind;
pub use world::bodies_layout_preserved;
pub use world::collider_world_pos;
pub use world::collider_world_pos_in;
pub use world::count_pair;
pub use world::count_started_for;
pub use world::count_stopped_for;
pub use world::diff_events;
pub use world::entries_sorted;
pub use world::entry_key_lt;
pub use world::handle_at;
pub use world::has_pair;
pub use world::interactions_for;
pub use world::is_started_for;
pub use world::is_stopped_for;
pub use world::lemma_no_consecutive_started;
pub use world::lemma_no_events_when_pairs_unchanged;
pub use world::lemma_started_once_per_onset;
pub use world::lemma_stopped_once_per_separation;
pub use world::lemma_zero_tick_after_resolved_no_events;
pub use world::masks_compatible;
pub use world::movements_unchanged;
pub use world::pair_eligible;
pub use world::pair_eligible_in;
pub use world::pair_kind;
pub use world::pair_overlapping;
pub use world::pair_overlapping_in;
pub use world::positions_unchanged;
pub use world::settled;
pub use world::spec_touch_entry;
pub use world::spec_touch_entry_in;
pub use world::start_event;
pub use world::started_events;
pub use world::static_positions_unchanged;
pub use world::stop_event;
pub use world::stopped_events;
pub use world::table_matches_geometry;
pub use world::touch_entry_wf;

pub use query::Ray;
pub use query::RaycastResult;
pub use query::hits_contain;
pub use query::lemma_ray_box_toi_bounds;
pub use query::overlap_test_match;
pub use query::ray_test_match;
pub use query::ray_test_toi;
pub use query::spec_ray_box;
pub use query::spec_slab_axis;
