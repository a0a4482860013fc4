//! Queries over an entity store that is nested in another one.
//!
//! A primary world holds further worlds as resources. A query names the nested world
//! by its index and says what it wants of each entity: a shape of members that read
//! or write one component each, and a filter. The state of a query caches which
//! archetypes and tables of the nested world match, and is brought up to date with
//! the archetypes that the world got since. A walk over the matches yields, for each
//! entity, the slots of the components that the shape asks for; the values stay in
//! the store that holds the world.
//!
//! - [`world`], [`other_world`], [`ticks`]: the layout of a world, nested worlds, and
//!   change detection.
//! - [`other_world_query`], [`other`]: the members of shapes and filters, their
//!   states and cursors.
//! - [`resolve`], [`matching`], [`other_query_state`]: making the state of a query
//!   and keeping its cache of matches.
//! - [`rows`], [`items`], [`for_each`], [`other_query_iter`], [`other_query`],
//!   [`batch`]: what a query yields, in one walk, one item at a time, for one
//!   entity, or batch by batch.
//! - [`access`], [`bitset`], [`system`]: the claims of queries and systems, and the
//!   refusal of claims that collide.
//! - [`other_res`], [`other_res_mut`], [`plugin`]: resources of nested worlds, and
//!   setting a nested world up.
//! - [`laws`]: what holds of all of this in general.
pub mod access;
pub mod batch;
pub mod bitset;
pub mod for_each;
pub mod items;
pub mod laws;
pub mod matching;
pub mod other;
pub mod other_query;
pub mod other_query_iter;
pub mod other_query_state;
pub mod other_res;
pub mod other_res_mut;
pub mod other_world;
pub mod other_world_query;
pub mod plugin;
pub mod resolve;
pub mod rows;
pub mod system;
pub mod ticks;
pub mod world;
