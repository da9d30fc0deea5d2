//! Category theory for multi-agent coordination: agents are objects,
//! messages are morphisms, coordination strategies are functors.

pub mod names;
pub mod strmap;
pub mod table;
pub mod category;
pub mod category_laws;
pub mod functor;
pub mod natural;
pub mod limits;
pub mod protocol;
