//! Parser for a line-oriented recipe markup.
//!
//! [`parse`] turns recipe text into lines: a line that starts with `>>` is a
//! `key: value` metadata pair, a blank line is dropped, and any other line is
//! a step made of content and annotations:
//!
//! - `@name` or `@multi word name{amount}`: an ingredient;
//! - `#name` or `#multi word name{}`: a piece of cookware;
//! - `~{duration%unit}`: a timer.
//!
//! A marker that opens no annotation is plain text; a `{` that is never
//! closed on its line is a syntax error. Content between annotations is kept
//! without the whitespace around it.
//!
//! [`reduce`] folds the lines into a [`ir::Recipe`]: the steps are joined by
//! line breaks into one instruction text in which every ingredient, cookware
//! and timer is replaced by `@`, `#` or `~`, the n-th marker of each kind
//! matching the n-th entry of its list. Ingredients are registered once per
//! name, their amounts added up. An amount is written as a number, `*` before
//! it for a factor per serving, followed by an optional unit that may be set
//! off by `%` (`2`, `1kg`, `*2 cups`, `3%g`). A `servings` entry holds serving
//! tiers separated by `,` or `|`.
//!
//! [`parse_recipe`] does both.

pub mod ast;
pub mod grammar;
pub mod ir;
pub mod parser;
pub mod reduce;

pub use ast::{Cookware, Ingredient, Metadata, RecipeLine, StepItem, Timer};
pub use grammar::ParseErrorKind;
pub use parser::{parse, ParseError};
pub use reduce::{parse_recipe, reduce, RecipeError, ReduceError, ReduceErrorKind};
