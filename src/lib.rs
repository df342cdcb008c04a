//! Scene placement for milo archives: a name index of placed nodes, parent
//! resolution into a live hierarchy, skin binding over the authored bone
//! hierarchy, and the byte and path work around loading.
pub mod anim;
pub mod archive;
pub mod args;
pub mod hierarchy;
pub mod names;
pub mod resources;
pub mod skin;
pub mod texture;
