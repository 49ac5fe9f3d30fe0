//! Algebraic data types of functional programming (`Maybe`, `Either`,
//! `Validation`, `List`) with their functor, applicative, monad, alternative,
//! semigroup, monoid, foldable and traversable operations, each specified
//! against a mathematical model.
pub mod algebra;
pub mod either;
pub mod either_laws;
pub mod either_util;
pub mod function;
pub mod identity;
pub mod list;
pub mod list_fold;
pub mod list_instances;
pub mod list_laws;
pub mod list_model;
pub mod list_traverse;
pub mod maybe;
pub mod maybe_laws;
pub mod maybe_util;
pub mod validation;
pub mod validation_laws;
pub mod validation_util;
