//! Types that mirror the structured output of `ichiran-cli -f` exactly,
//! including the fields whose shape varies from one output to another.
use vstd::prelude::*;

use crate::json::Json;

verus! {

/// A whole document: the segments of the input, in order.
#[derive(Debug, PartialEq, Eq)]
pub struct FullSplitInfo(pub Vec<Segment>);

#[derive(Debug, PartialEq, Eq)]
pub enum Segment {
    /// Japanese text, with its ranked candidate segmentations.
    Segmentations(Vec<Segmentation>),
    /// Punctuation and other text that passes through unchanged.
    Other(String),
}

/// One candidate segmentation: its words and its score.
#[derive(Debug, PartialEq, Eq)]
pub struct Segmentation(pub Vec<Word>, pub i32);

/// A word: its romanization, its interpretations, and a trailing list that is
/// carried along uninterpreted.
#[derive(Debug, PartialEq, Eq)]
pub struct Word(pub String, pub Alternatives, pub Vec<Json>);

/// Either a single interpretation, or an object wrapping a list of them.
#[derive(Debug, PartialEq, Eq)]
pub enum Alternatives {
    WordInfo(Alternative),
    Alternatives { alternative: Vec<Alternative> },
}

#[derive(Debug, PartialEq, Eq)]
pub enum Alternative {
    WordInfo(WordInfo),
    CompoundWordInfo(CompoundWordInfo),
}

#[derive(Debug, PartialEq, Eq)]
pub struct WordInfo {
    pub reading: String,
    pub text: String,
    pub kana: String,
    pub score: i32,
    pub counter: Option<Counter>,
    pub seq: Option<i32>,
    pub gloss: Vec<Gloss>,
    pub suffix: Option<String>,
    pub conj: Vec<Conj>,
}

#[derive(Debug, PartialEq, Eq)]
pub struct CompoundWordInfo {
    pub reading: String,
    pub text: String,
    pub kana: String,
    pub score: i32,
    pub compound: Vec<String>,
    pub components: Vec<WordInfo>,
}

#[derive(Debug, PartialEq, Eq)]
pub struct Counter {
    pub value: String,
    pub ordinal: Ordinal,
}

/// A flag that the analyzer writes either as a boolean or as an array.
#[derive(Debug, PartialEq, Eq)]
pub enum Ordinal {
    Bool(bool),
    Vec(Vec<Json>),
}

#[derive(Debug, PartialEq, Eq)]
pub struct Gloss {
    pub pos: String,
    pub gloss: String,
    pub field: Option<String>,
    pub info: Option<String>,
}

#[derive(Debug, PartialEq, Eq)]
pub struct Conj {
    pub prop: Vec<ConjProp>,
    pub via: Vec<Via>,
    pub reading: Option<String>,
    pub gloss: Vec<Gloss>,
    pub readok: Readok,
}

#[derive(Debug, PartialEq, Eq)]
pub struct ConjProp {
    pub pos: String,
    pub prop_type: PropType,
    pub fml: bool,
    pub neg: bool,
}

/// A property type that the analyzer writes either as a string or as an array.
#[derive(Debug, PartialEq, Eq)]
pub enum PropType {
    String(String),
    Vec(Vec<Json>),
}

#[derive(Debug, PartialEq, Eq)]
pub struct Via {
    pub prop: Vec<ConjProp>,
    pub reading: Option<String>,
    pub gloss: Vec<Gloss>,
    pub readok: Readok,
}

/// A flag that the analyzer writes either as a boolean or as an array.
#[derive(Debug, PartialEq, Eq)]
pub enum Readok {
    Bool(bool),
    Vec(Vec<Json>),
}

} // verus!
