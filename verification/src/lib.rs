//! A small PLONKish arithmetisation engine over the Pallas base field.
//!
//! A circuit is described once as a [`constraint_system::ConstraintSystem`]:
//! typed columns, selectors, polynomial gates and lookup arguments. A
//! [`layouter::Layouter`] then lays witness values out region by region, and
//! [`checker::verify`] reports every constraint that the finished matrix
//! breaks. [`chip::FieldChip`] is a gate library on top of the three:
//! multiplication, addition and a lookup-backed XOR.
//!
//! The modules [`satisfaction`], [`persistence`], [`reporting`] and
//! [`guarantees`] hold no executable code. They state and prove what the
//! engine promises: what the checker's answer means, that later regions
//! cannot break earlier ones, and that the chip's operations satisfy the
//! constraints they lay out.
pub mod assignment;
pub mod checker;
pub mod chip;
pub mod column;
pub mod constraint_system;
pub mod equality;
pub mod error;
pub mod expression;
pub mod field;
pub mod guarantees;
pub mod layouter;
pub mod persistence;
pub mod reporting;
pub mod satisfaction;
pub mod table;
