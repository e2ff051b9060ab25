//! A runtime-enforced model of value ownership.
//!
//! Values live in slots of a [`store::ValueStore`]. Every slot carries an
//! ownership state, and every access to a slot is checked against that state
//! when it happens: a value can be copied, moved out, borrowed by any number
//! of shared readers or by one exclusive writer, and is dropped when the
//! scope that owns it ends. A small evaluator runs instruction trees against
//! these rules and reports the first violation as a fault.
//!
//! Every executable function is verified against a contract stated over the
//! mathematical views of the data.

pub mod bindings;
pub mod eval;
pub mod fault;
pub mod guarantees;
pub mod handbook;
pub mod session;
pub mod store;
pub mod tracker;
pub mod value;
