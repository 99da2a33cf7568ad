//! A compact representation of text edits and an algorithm that merges two
//! sequentially applied edit sequences into one.
//!
//! An edit sequence ([`TextDiff`]) is an ordered list of operations
//! ([`Op`]): retain a span of the input text, delete a span, or insert new
//! text. A [`Builder`] accumulates operations while keeping the list in
//! canonical form, and [`TextDiff::compose`] merges two diffs applied one
//! after the other into a single equivalent diff.
//!
//! What a diff means is defined by the specification function
//! [`model::apply`]; the contracts of the executable code pin each result
//! down to a specification function of the inputs, and [`laws`] proves
//! what those functions do: composition applies one diff after the other,
//! the empty diff is its identity, composition is associative in effect,
//! and the builder's output is canonical and meaning-preserving.
//!
//! [`button`] holds the verified action-reading logic of the button
//! widgets that surround the editor this library serves.

pub mod builder;
pub mod button;
pub mod canon;
pub mod compose;
pub mod diff;
pub mod laws;
pub mod lemmas;
pub mod model;
pub mod semantics;
pub mod text;
pub mod unique;

pub use builder::Builder;
pub use button::{Actions, Button, ButtonAction, ButtonRef, ButtonSet, KeyModifiers, WidgetAction};
pub use diff::{IntoIter, Iter, Op, OpInfo, TextDiff};
pub use text::Text;
