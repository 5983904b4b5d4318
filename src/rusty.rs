//! Clean counterparts of the raw types, in which each field of varying shape
//! has one representation.
use vstd::prelude::*;

use crate::raw;

verus! {

/// The view of an optional string.
pub open spec fn opt_view(o: Option<String>) -> Option<Seq<char>> {
    match o {
        Some(s) => Some(s@),
        None => None,
    }
}

/// A dictionary sense: part of speech, meaning, and an optional usage note.
#[derive(Debug, Clone, PartialEq, Eq)]
pub struct Gloss {
    pub pos: String,
    pub gloss: String,
    pub info: Option<String>,
}

pub struct GlossView {
    pub pos: Seq<char>,
    pub gloss: Seq<char>,
    pub info: Option<Seq<char>>,
}

impl View for Gloss {
    type V = GlossView;

    open spec fn view(&self) -> GlossView {
        GlossView { pos: self.pos@, gloss: self.gloss@, info: opt_view(self.info) }
    }
}

/// The clean form of a raw gloss: its usage field is dropped.
pub open spec fn gloss_of(g: raw::Gloss) -> GlossView {
    GlossView { pos: g.pos@, gloss: g.gloss@, info: opt_view(g.info) }
}

pub open spec fn gloss_views(v: Seq<Gloss>) -> Seq<GlossView> {
    v.map_values(|g: Gloss| g@)
}

pub open spec fn glosses_of(v: Seq<raw::Gloss>) -> Seq<GlossView> {
    v.map_values(|g: raw::Gloss| gloss_of(g))
}

impl Gloss {
    /// Moves the fields of a raw gloss over.
    pub fn from_raw(value: raw::Gloss) -> (r: Self)
        ensures
            r@ == gloss_of(value),
    {
        Gloss { pos: value.pos, gloss: value.gloss, info: value.info }
    }
}

fn glosses_from(v: Vec<raw::Gloss>) -> (r: Vec<Gloss>)
    ensures
        gloss_views(r@) == glosses_of(v@),
{
    let ghost orig = v@;
    let mut src = v;
    let mut out: Vec<Gloss> = Vec::new();
    while src.len() > 0
        invariant
            out@.len() + src@.len() == orig.len(),
            src@ == orig.subrange(out@.len() as int, orig.len() as int),
            gloss_views(out@) == glosses_of(orig.subrange(0, out@.len() as int)),
        decreases src@.len(),
    {
        let ghost k = out@.len() as int;
        let ghost prev = out@;
        assert(src@[0] == orig[k]);
        let item = src.remove(0);
        let made = Gloss::from_raw(item);
        out.push(made);
        assert(src@ =~= orig.subrange(k + 1, orig.len() as int));
        assert(orig.subrange(0, k + 1) =~= orig.subrange(0, k).push(orig[k]));
        assert(gloss_views(prev.push(made)) =~= gloss_views(prev).push(made@));
        assert(glosses_of(orig.subrange(0, k).push(orig[k])) =~= glosses_of(orig.subrange(0, k)).push(made@));
    }
    assert(orig.subrange(0, orig.len() as int) =~= orig);
    out
}

/// A counter word: how it is read, and whether it is an ordinal.
#[derive(Debug, Clone, PartialEq, Eq)]
pub struct Counter {
    pub value: String,
    pub ordinal: bool,
}

pub struct CounterView {
    pub value: Seq<char>,
    pub ordinal: bool,
}

impl View for Counter {
    type V = CounterView;

    open spec fn view(&self) -> CounterView {
        CounterView { value: self.value@, ordinal: self.ordinal }
    }
}

/// The ordinal flag: a boolean as given, `false` for the array shape.
pub open spec fn ordinal_flag(o: raw::Ordinal) -> bool {
    match o {
        raw::Ordinal::Bool(b) => b,
        raw::Ordinal::Vec(_) => false,
    }
}

pub open spec fn counter_of(c: raw::Counter) -> CounterView {
    CounterView { value: c.value@, ordinal: ordinal_flag(c.ordinal) }
}

impl Counter {
    /// Resolves the ordinal flag; the array shape stands for `false`.
    pub fn from_raw(value: raw::Counter) -> (r: Self)
        ensures
            r@ == counter_of(value),
    {
        let ordinal = match value.ordinal {
            raw::Ordinal::Bool(b) => b,
            raw::Ordinal::Vec(_) => false,
        };
        Counter { value: value.value, ordinal }
    }
}

/// The readok flag: a boolean as given, `false` for the array shape.
pub open spec fn readok_flag(r: raw::Readok) -> bool {
    match r {
        raw::Readok::Bool(b) => b,
        raw::Readok::Vec(_) => false,
    }
}

/// Resolves a readok flag; the array shape stands for `false`.
pub fn readok_from(value: raw::Readok) -> (r: bool)
    ensures
        r == readok_flag(value),
{
    match value {
        raw::Readok::Bool(b) => b,
        raw::Readok::Vec(_) => false,
    }
}

/// A property type: a string as given, none for the array shape.
pub open spec fn prop_type_of(p: raw::PropType) -> Option<Seq<char>> {
    match p {
        raw::PropType::String(s) => Some(s@),
        raw::PropType::Vec(_) => None,
    }
}

/// Resolves a property type; the array shape stands for no type.
pub fn prop_type_from(value: raw::PropType) -> (r: Option<String>)
    ensures
        opt_view(r) == prop_type_of(value),
{
    match value {
        raw::PropType::String(s) => Some(s),
        raw::PropType::Vec(_) => None,
    }
}

/// A grammatical property of a conjugation.
#[derive(Debug, Clone, PartialEq, Eq)]
pub struct ConjProp {
    pub pos: String,
    pub prop_type: Option<String>,
    pub fml: bool,
    pub neg: bool,
}

pub struct ConjPropView {
    pub pos: Seq<char>,
    pub prop_type: Option<Seq<char>>,
    pub fml: bool,
    pub neg: bool,
}

impl View for ConjProp {
    type V = ConjPropView;

    open spec fn view(&self) -> ConjPropView {
        ConjPropView { pos: self.pos@, prop_type: opt_view(self.prop_type), fml: self.fml, neg: self.neg }
    }
}

pub open spec fn conj_prop_of(p: raw::ConjProp) -> ConjPropView {
    ConjPropView { pos: p.pos@, prop_type: prop_type_of(p.prop_type), fml: p.fml, neg: p.neg }
}

pub open spec fn prop_views(v: Seq<ConjProp>) -> Seq<ConjPropView> {
    v.map_values(|p: ConjProp| p@)
}

pub open spec fn props_of(v: Seq<raw::ConjProp>) -> Seq<ConjPropView> {
    v.map_values(|p: raw::ConjProp| conj_prop_of(p))
}

impl ConjProp {
    /// Moves the fields over and resolves the property type.
    pub fn from_raw(value: raw::ConjProp) -> (r: Self)
        ensures
            r@ == conj_prop_of(value),
    {
        ConjProp {
            pos: value.pos,
            prop_type: prop_type_from(value.prop_type),
            fml: value.fml,
            neg: value.neg,
        }
    }
}

fn props_from(v: Vec<raw::ConjProp>) -> (r: Vec<ConjProp>)
    ensures
        prop_views(r@) == props_of(v@),
{
    let ghost orig = v@;
    let mut src = v;
    let mut out: Vec<ConjProp> = Vec::new();
    while src.len() > 0
        invariant
            out@.len() + src@.len() == orig.len(),
            src@ == orig.subrange(out@.len() as int, orig.len() as int),
            prop_views(out@) == props_of(orig.subrange(0, out@.len() as int)),
        decreases src@.len(),
    {
        let ghost k = out@.len() as int;
        let ghost prev = out@;
        assert(src@[0] == orig[k]);
        let item = src.remove(0);
        let made = ConjProp::from_raw(item);
        out.push(made);
        assert(src@ =~= orig.subrange(k + 1, orig.len() as int));
        assert(orig.subrange(0, k + 1) =~= orig.subrange(0, k).push(orig[k]));
        assert(prop_views(prev.push(made)) =~= prop_views(prev).push(made@));
        assert(props_of(orig.subrange(0, k).push(orig[k])) =~= props_of(orig.subrange(0, k)).push(made@));
    }
    assert(orig.subrange(0, orig.len() as int) =~= orig);
    out
}

/// One step of a chained conjugation.
#[derive(Debug, Clone, PartialEq, Eq)]
pub struct Via {
    pub prop: Vec<ConjProp>,
    pub reading: Option<String>,
    pub gloss: Vec<Gloss>,
    pub readok: bool,
}

pub struct ViaView {
    pub prop: Seq<ConjPropView>,
    pub reading: Option<Seq<char>>,
    pub gloss: Seq<GlossView>,
    pub readok: bool,
}

impl View for Via {
    type V = ViaView;

    open spec fn view(&self) -> ViaView {
        ViaView {
            prop: prop_views(self.prop@),
            reading: opt_view(self.reading),
            gloss: gloss_views(self.gloss@),
            readok: self.readok,
        }
    }
}

pub open spec fn via_of(v: raw::Via) -> ViaView {
    ViaView {
        prop: props_of(v.prop@),
        reading: opt_view(v.reading),
        gloss: glosses_of(v.gloss@),
        readok: readok_flag(v.readok),
    }
}

pub open spec fn via_views(v: Seq<Via>) -> Seq<ViaView> {
    v.map_values(|x: Via| x@)
}

pub open spec fn vias_of(v: Seq<raw::Via>) -> Seq<ViaView> {
    v.map_values(|x: raw::Via| via_of(x))
}

impl Via {
    /// Projects each property and gloss, and resolves the readok flag.
    pub fn from_raw(value: raw::Via) -> (r: Self)
        ensures
            r@ == via_of(value),
    {
        Via {
            prop: props_from(value.prop),
            reading: value.reading,
            gloss: glosses_from(value.gloss),
            readok: readok_from(value.readok),
        }
    }
}

fn vias_from(v: Vec<raw::Via>) -> (r: Vec<Via>)
    ensures
        via_views(r@) == vias_of(v@),
{
    let ghost orig = v@;
    let mut src = v;
    let mut out: Vec<Via> = Vec::new();
    while src.len() > 0
        invariant
            out@.len() + src@.len() == orig.len(),
            src@ == orig.subrange(out@.len() as int, orig.len() as int),
            via_views(out@) == vias_of(orig.subrange(0, out@.len() as int)),
        decreases src@.len(),
    {
        let ghost k = out@.len() as int;
        let ghost prev = out@;
        assert(src@[0] == orig[k]);
        let item = src.remove(0);
        let made = Via::from_raw(item);
        out.push(made);
        assert(src@ =~= orig.subrange(k + 1, orig.len() as int));
        assert(orig.subrange(0, k + 1) =~= orig.subrange(0, k).push(orig[k]));
        assert(via_views(prev.push(made)) =~= via_views(prev).push(made@));
        assert(vias_of(orig.subrange(0, k).push(orig[k])) =~= vias_of(orig.subrange(0, k)).push(made@));
    }
    assert(orig.subrange(0, orig.len() as int) =~= orig);
    out
}

/// How a surface form derives from its dictionary form.
#[derive(Debug, Clone, PartialEq, Eq)]
pub struct Conj {
    pub prop: Vec<ConjProp>,
    pub via: Vec<Via>,
    pub reading: Option<String>,
    pub gloss: Vec<Gloss>,
    pub readok: bool,
}

pub struct ConjView {
    pub prop: Seq<ConjPropView>,
    pub via: Seq<ViaView>,
    pub reading: Option<Seq<char>>,
    pub gloss: Seq<GlossView>,
    pub readok: bool,
}

impl View for Conj {
    type V = ConjView;

    open spec fn view(&self) -> ConjView {
        ConjView {
            prop: prop_views(self.prop@),
            via: via_views(self.via@),
            reading: opt_view(self.reading),
            gloss: gloss_views(self.gloss@),
            readok: self.readok,
        }
    }
}

pub open spec fn conj_of(c: raw::Conj) -> ConjView {
    ConjView {
        prop: props_of(c.prop@),
        via: vias_of(c.via@),
        reading: opt_view(c.reading),
        gloss: glosses_of(c.gloss@),
        readok: readok_flag(c.readok),
    }
}

pub open spec fn conj_views(v: Seq<Conj>) -> Seq<ConjView> {
    v.map_values(|x: Conj| x@)
}

pub open spec fn conjs_of(v: Seq<raw::Conj>) -> Seq<ConjView> {
    v.map_values(|x: raw::Conj| conj_of(x))
}

impl Conj {
    /// Projects each property, step and gloss, and resolves the readok flag.
    pub fn from_raw(value: raw::Conj) -> (r: Self)
        ensures
            r@ == conj_of(value),
    {
        Conj {
            prop: props_from(value.prop),
            via: vias_from(value.via),
            reading: value.reading,
            gloss: glosses_from(value.gloss),
            readok: readok_from(value.readok),
        }
    }
}

fn conjs_from(v: Vec<raw::Conj>) -> (r: Vec<Conj>)
    ensures
        conj_views(r@) == conjs_of(v@),
{
    let ghost orig = v@;
    let mut src = v;
    let mut out: Vec<Conj> = Vec::new();
    while src.len() > 0
        invariant
            out@.len() + src@.len() == orig.len(),
            src@ == orig.subrange(out@.len() as int, orig.len() as int),
            conj_views(out@) == conjs_of(orig.subrange(0, out@.len() as int)),
        decreases src@.len(),
    {
        let ghost k = out@.len() as int;
        let ghost prev = out@;
        assert(src@[0] == orig[k]);
        let item = src.remove(0);
        let made = Conj::from_raw(item);
        out.push(made);
        assert(src@ =~= orig.subrange(k + 1, orig.len() as int));
        assert(orig.subrange(0, k + 1) =~= orig.subrange(0, k).push(orig[k]));
        assert(conj_views(prev.push(made)) =~= conj_views(prev).push(made@));
        assert(conjs_of(orig.subrange(0, k).push(orig[k])) =~= conjs_of(orig.subrange(0, k)).push(made@));
    }
    assert(orig.subrange(0, orig.len() as int) =~= orig);
    out
}

/// A simple or suffixed word.
#[derive(Debug, Clone, PartialEq, Eq)]
pub struct WordInfo {
    pub reading: String,
    pub text: String,
    pub kana: String,
    pub score: i32,
    pub counter: Option<Counter>,
    pub seq: Option<i32>,
    pub gloss: Vec<Gloss>,
    pub suffix: Option<String>,
    pub conj: Vec<Conj>,
}

pub struct WordInfoView {
    pub reading: Seq<char>,
    pub text: Seq<char>,
    pub kana: Seq<char>,
    pub score: i32,
    pub counter: Option<CounterView>,
    pub seq: Option<i32>,
    pub gloss: Seq<GlossView>,
    pub suffix: Option<Seq<char>>,
    pub conj: Seq<ConjView>,
}

pub open spec fn counter_view(c: Option<Counter>) -> Option<CounterView> {
    match c {
        Some(c) => Some(c@),
        None => None,
    }
}

pub open spec fn counter_opt_of(c: Option<raw::Counter>) -> Option<CounterView> {
    match c {
        Some(c) => Some(counter_of(c)),
        None => None,
    }
}

impl View for WordInfo {
    type V = WordInfoView;

    open spec fn view(&self) -> WordInfoView {
        WordInfoView {
            reading: self.reading@,
            text: self.text@,
            kana: self.kana@,
            score: self.score,
            counter: counter_view(self.counter),
            seq: self.seq,
            gloss: gloss_views(self.gloss@),
            suffix: opt_view(self.suffix),
            conj: conj_views(self.conj@),
        }
    }
}

pub open spec fn word_info_of(w: raw::WordInfo) -> WordInfoView {
    WordInfoView {
        reading: w.reading@,
        text: w.text@,
        kana: w.kana@,
        score: w.score,
        counter: counter_opt_of(w.counter),
        seq: w.seq,
        gloss: glosses_of(w.gloss@),
        suffix: opt_view(w.suffix),
        conj: conjs_of(w.conj@),
    }
}

pub open spec fn word_info_views(v: Seq<WordInfo>) -> Seq<WordInfoView> {
    v.map_values(|x: WordInfo| x@)
}

pub open spec fn word_infos_of(v: Seq<raw::WordInfo>) -> Seq<WordInfoView> {
    v.map_values(|x: raw::WordInfo| word_info_of(x))
}

impl WordInfo {
    /// Moves the fields over, projecting the counter, glosses and conjugations.
    pub fn from_raw(value: raw::WordInfo) -> (r: Self)
        ensures
            r@ == word_info_of(value),
    {
        let counter = match value.counter {
            Some(c) => Some(Counter::from_raw(c)),
            None => None,
        };
        WordInfo {
            reading: value.reading,
            text: value.text,
            kana: value.kana,
            score: value.score,
            counter,
            seq: value.seq,
            gloss: glosses_from(value.gloss),
            suffix: value.suffix,
            conj: conjs_from(value.conj),
        }
    }
}

fn word_infos_from(v: Vec<raw::WordInfo>) -> (r: Vec<WordInfo>)
    ensures
        word_info_views(r@) == word_infos_of(v@),
{
    let ghost orig = v@;
    let mut src = v;
    let mut out: Vec<WordInfo> = Vec::new();
    while src.len() > 0
        invariant
            out@.len() + src@.len() == orig.len(),
            src@ == orig.subrange(out@.len() as int, orig.len() as int),
            word_info_views(out@) == word_infos_of(orig.subrange(0, out@.len() as int)),
        decreases src@.len(),
    {
        let ghost k = out@.len() as int;
        let ghost prev = out@;
        assert(src@[0] == orig[k]);
        let item = src.remove(0);
        let made = WordInfo::from_raw(item);
        out.push(made);
        assert(src@ =~= orig.subrange(k + 1, orig.len() as int));
        assert(orig.subrange(0, k + 1) =~= orig.subrange(0, k).push(orig[k]));
        assert(word_info_views(prev.push(made)) =~= word_info_views(prev).push(made@));
        assert(word_infos_of(orig.subrange(0, k).push(orig[k])) =~= word_infos_of(orig.subrange(0, k)).push(made@));
    }
    assert(orig.subrange(0, orig.len() as int) =~= orig);
    out
}

/// A word made of several parts, each with its own information.
#[derive(Debug, Clone, PartialEq, Eq)]
pub struct CompoundWordInfo {
    pub reading: String,
    pub text: String,
    pub kana: String,
    pub score: i32,
    pub compound: Vec<String>,
    pub components: Vec<WordInfo>,
}

pub struct CompoundWordInfoView {
    pub reading: Seq<char>,
    pub text: Seq<char>,
    pub kana: Seq<char>,
    pub score: i32,
    pub compound: Seq<Seq<char>>,
    pub components: Seq<WordInfoView>,
}

impl View for CompoundWordInfo {
    type V = CompoundWordInfoView;

    open spec fn view(&self) -> CompoundWordInfoView {
        CompoundWordInfoView {
            reading: self.reading@,
            text: self.text@,
            kana: self.kana@,
            score: self.score,
            compound: crate::views_of(self.compound@),
            components: word_info_views(self.components@),
        }
    }
}

pub open spec fn compound_of(c: raw::CompoundWordInfo) -> CompoundWordInfoView {
    CompoundWordInfoView {
        reading: c.reading@,
        text: c.text@,
        kana: c.kana@,
        score: c.score,
        compound: crate::views_of(c.compound@),
        components: word_infos_of(c.components@),
    }
}

impl CompoundWordInfo {
    /// Moves the fields over, projecting each component.
    pub fn from_raw(value: raw::CompoundWordInfo) -> (r: Self)
        ensures
            r@ == compound_of(value),
    {
        CompoundWordInfo {
            reading: value.reading,
            text: value.text,
            kana: value.kana,
            score: value.score,
            compound: value.compound,
            components: word_infos_from(value.components),
        }
    }
}

/// One interpretation of a word.
#[derive(Debug, Clone, PartialEq, Eq)]
pub enum Alternative {
    WordInfo(WordInfo),
    CompoundWordInfo(CompoundWordInfo),
}

pub enum AlternativeView {
    WordInfo(WordInfoView),
    CompoundWordInfo(CompoundWordInfoView),
}

impl View for Alternative {
    type V = AlternativeView;

    open spec fn view(&self) -> AlternativeView {
        match self {
            Alternative::WordInfo(w) => AlternativeView::WordInfo(w@),
            Alternative::CompoundWordInfo(c) => AlternativeView::CompoundWordInfo(c@),
        }
    }
}

pub open spec fn alternative_of(a: raw::Alternative) -> AlternativeView {
    match a {
        raw::Alternative::WordInfo(w) => AlternativeView::WordInfo(word_info_of(w)),
        raw::Alternative::CompoundWordInfo(c) => AlternativeView::CompoundWordInfo(compound_of(c)),
    }
}

pub open spec fn alternative_views(v: Seq<Alternative>) -> Seq<AlternativeView> {
    v.map_values(|x: Alternative| x@)
}

pub open spec fn alternative_list_of(v: Seq<raw::Alternative>) -> Seq<AlternativeView> {
    v.map_values(|x: raw::Alternative| alternative_of(x))
}

/// The interpretations of a word, in order: a single one gives a list of one,
/// a wrapped list gives all of its members.
pub open spec fn alternatives_of(a: raw::Alternatives) -> Seq<AlternativeView> {
    match a {
        raw::Alternatives::WordInfo(x) => seq![alternative_of(x)],
        raw::Alternatives::Alternatives { alternative } => alternative_list_of(alternative@),
    }
}

impl Alternative {
    /// Projects either kind of interpretation.
    pub fn from_raw(value: raw::Alternative) -> (r: Self)
        ensures
            r@ == alternative_of(value),
    {
        match value {
            raw::Alternative::WordInfo(w) => Alternative::WordInfo(WordInfo::from_raw(w)),
            raw::Alternative::CompoundWordInfo(c) => Alternative::CompoundWordInfo(CompoundWordInfo::from_raw(c)),
        }
    }

    /// Flattens the two shapes of a word's interpretations into one list.
    pub fn list_from_raw(value: raw::Alternatives) -> (r: Vec<Alternative>)
        ensures
            alternative_views(r@) == alternatives_of(value),
    {
        match value {
            raw::Alternatives::WordInfo(x) => {
                let mut out: Vec<Alternative> = Vec::new();
                out.push(Alternative::from_raw(x));
                assert(alternative_views(out@) =~= seq![alternative_of(x)]);
                out
            },
            raw::Alternatives::Alternatives { alternative } => alternative_list_from(alternative),
        }
    }
}

fn alternative_list_from(v: Vec<raw::Alternative>) -> (r: Vec<Alternative>)
    ensures
        alternative_views(r@) == alternative_list_of(v@),
{
    let ghost orig = v@;
    let mut src = v;
    let mut out: Vec<Alternative> = Vec::new();
    while src.len() > 0
        invariant
            out@.len() + src@.len() == orig.len(),
            src@ == orig.subrange(out@.len() as int, orig.len() as int),
            alternative_views(out@) == alternative_list_of(orig.subrange(0, out@.len() as int)),
        decreases src@.len(),
    {
        let ghost k = out@.len() as int;
        let ghost prev = out@;
        assert(src@[0] == orig[k]);
        let item = src.remove(0);
        let made = Alternative::from_raw(item);
        out.push(made);
        assert(src@ =~= orig.subrange(k + 1, orig.len() as int));
        assert(orig.subrange(0, k + 1) =~= orig.subrange(0, k).push(orig[k]));
        assert(alternative_views(prev.push(made)) =~= alternative_views(prev).push(made@));
        assert(alternative_list_of(orig.subrange(0, k).push(orig[k])) =~= alternative_list_of(orig.subrange(0, k)).push(made@));
    }
    assert(orig.subrange(0, orig.len() as int) =~= orig);
    out
}

/// A word: its romanization and its interpretations.
#[derive(Debug, Clone, PartialEq, Eq)]
pub struct Word {
    pub romanized: String,
    /// Possible interpretations for this word.
    pub alternatives: Vec<Alternative>,
}

pub struct WordView {
    pub romanized: Seq<char>,
    pub alternatives: Seq<AlternativeView>,
}

impl View for Word {
    type V = WordView;

    open spec fn view(&self) -> WordView {
        WordView { romanized: self.romanized@, alternatives: alternative_views(self.alternatives@) }
    }
}

/// A raw word keeps its romanization and flattens its interpretations; its
/// trailing list is dropped.
pub open spec fn word_of(w: raw::Word) -> WordView {
    WordView { romanized: w.0@, alternatives: alternatives_of(w.1) }
}

pub open spec fn word_views(v: Seq<Word>) -> Seq<WordView> {
    v.map_values(|x: Word| x@)
}

pub open spec fn words_of(v: Seq<raw::Word>) -> Seq<WordView> {
    v.map_values(|x: raw::Word| word_of(x))
}

impl Word {
    /// Keeps the romanization and flattens the interpretations.
    pub fn from_raw(value: raw::Word) -> (r: Self)
        ensures
            r@ == word_of(value),
    {
        Word { romanized: value.0, alternatives: Alternative::list_from_raw(value.1) }
    }
}

fn words_from(v: Vec<raw::Word>) -> (r: Vec<Word>)
    ensures
        word_views(r@) == words_of(v@),
{
    let ghost orig = v@;
    let mut src = v;
    let mut out: Vec<Word> = Vec::new();
    while src.len() > 0
        invariant
            out@.len() + src@.len() == orig.len(),
            src@ == orig.subrange(out@.len() as int, orig.len() as int),
            word_views(out@) == words_of(orig.subrange(0, out@.len() as int)),
        decreases src@.len(),
    {
        let ghost k = out@.len() as int;
        let ghost prev = out@;
        assert(src@[0] == orig[k]);
        let item = src.remove(0);
        let made = Word::from_raw(item);
        out.push(made);
        assert(src@ =~= orig.subrange(k + 1, orig.len() as int));
        assert(orig.subrange(0, k + 1) =~= orig.subrange(0, k).push(orig[k]));
        assert(word_views(prev.push(made)) =~= word_views(prev).push(made@));
        assert(words_of(orig.subrange(0, k).push(orig[k])) =~= words_of(orig.subrange(0, k)).push(made@));
    }
    assert(orig.subrange(0, orig.len() as int) =~= orig);
    out
}

/// A candidate segmentation; a higher score marks a likelier one.
#[derive(Debug, Clone, PartialEq, Eq)]
pub struct Segmentation {
    pub words: Vec<Word>,
    /// A higher score indicates that this segmentation is more likely to be correct.
    pub score: i32,
}

pub struct SegmentationView {
    pub words: Seq<WordView>,
    pub score: i32,
}

impl View for Segmentation {
    type V = SegmentationView;

    open spec fn view(&self) -> SegmentationView {
        SegmentationView { words: word_views(self.words@), score: self.score }
    }
}

pub open spec fn segmentation_of(s: raw::Segmentation) -> SegmentationView {
    SegmentationView { words: words_of(s.0@), score: s.1 }
}

pub open spec fn segmentation_views(v: Seq<Segmentation>) -> Seq<SegmentationView> {
    v.map_values(|x: Segmentation| x@)
}

pub open spec fn segmentations_of(v: Seq<raw::Segmentation>) -> Seq<SegmentationView> {
    v.map_values(|x: raw::Segmentation| segmentation_of(x))
}

impl Segmentation {
    /// Projects each word and keeps the score.
    pub fn from_raw(value: raw::Segmentation) -> (r: Self)
        ensures
            r@ == segmentation_of(value),
    {
        Segmentation { words: words_from(value.0), score: value.1 }
    }
}

fn segmentations_from(v: Vec<raw::Segmentation>) -> (r: Vec<Segmentation>)
    ensures
        segmentation_views(r@) == segmentations_of(v@),
{
    let ghost orig = v@;
    let mut src = v;
    let mut out: Vec<Segmentation> = Vec::new();
    while src.len() > 0
        invariant
            out@.len() + src@.len() == orig.len(),
            src@ == orig.subrange(out@.len() as int, orig.len() as int),
            segmentation_views(out@) == segmentations_of(orig.subrange(0, out@.len() as int)),
        decreases src@.len(),
    {
        let ghost k = out@.len() as int;
        let ghost prev = out@;
        assert(src@[0] == orig[k]);
        let item = src.remove(0);
        let made = Segmentation::from_raw(item);
        out.push(made);
        assert(src@ =~= orig.subrange(k + 1, orig.len() as int));
        assert(orig.subrange(0, k + 1) =~= orig.subrange(0, k).push(orig[k]));
        assert(segmentation_views(prev.push(made)) =~= segmentation_views(prev).push(made@));
        assert(segmentations_of(orig.subrange(0, k).push(orig[k])) =~= segmentations_of(orig.subrange(0, k)).push(made@));
    }
    assert(orig.subrange(0, orig.len() as int) =~= orig);
    out
}

/// A segment of the input: words with their candidate segmentations, or
/// punctuation and other text that is not analyzed.
#[derive(Debug, Clone, PartialEq, Eq)]
pub enum Segment {
    /// A list of alternate segmentations for a sequence of words.
    Segmentations(Vec<Segmentation>),
    /// Punctuation or other non-word text.
    Other(String),
}

pub enum SegmentView {
    Segmentations(Seq<SegmentationView>),
    Other(Seq<char>),
}

impl View for Segment {
    type V = SegmentView;

    open spec fn view(&self) -> SegmentView {
        match self {
            Segment::Segmentations(v) => SegmentView::Segmentations(segmentation_views(v@)),
            Segment::Other(s) => SegmentView::Other(s@),
        }
    }
}

pub open spec fn segment_of(s: raw::Segment) -> SegmentView {
    match s {
        raw::Segment::Segmentations(v) => SegmentView::Segmentations(segmentations_of(v@)),
        raw::Segment::Other(t) => SegmentView::Other(t@),
    }
}

pub open spec fn segment_views(v: Seq<Segment>) -> Seq<SegmentView> {
    v.map_values(|x: Segment| x@)
}

pub open spec fn segments_of(v: Seq<raw::Segment>) -> Seq<SegmentView> {
    v.map_values(|x: raw::Segment| segment_of(x))
}

impl Segment {
    /// Projects each segmentation, or keeps the text.
    pub fn from_raw(value: raw::Segment) -> (r: Self)
        ensures
            r@ == segment_of(value),
    {
        match value {
            raw::Segment::Segmentations(v) => Segment::Segmentations(segmentations_from(v)),
            raw::Segment::Other(t) => Segment::Other(t),
        }
    }
}

fn segments_from(v: Vec<raw::Segment>) -> (r: Vec<Segment>)
    ensures
        segment_views(r@) == segments_of(v@),
{
    let ghost orig = v@;
    let mut src = v;
    let mut out: Vec<Segment> = Vec::new();
    while src.len() > 0
        invariant
            out@.len() + src@.len() == orig.len(),
            src@ == orig.subrange(out@.len() as int, orig.len() as int),
            segment_views(out@) == segments_of(orig.subrange(0, out@.len() as int)),
        decreases src@.len(),
    {
        let ghost k = out@.len() as int;
        let ghost prev = out@;
        assert(src@[0] == orig[k]);
        let item = src.remove(0);
        let made = Segment::from_raw(item);
        out.push(made);
        assert(src@ =~= orig.subrange(k + 1, orig.len() as int));
        assert(orig.subrange(0, k + 1) =~= orig.subrange(0, k).push(orig[k]));
        assert(segment_views(prev.push(made)) =~= segment_views(prev).push(made@));
        assert(segments_of(orig.subrange(0, k).push(orig[k])) =~= segments_of(orig.subrange(0, k)).push(made@));
    }
    assert(orig.subrange(0, orig.len() as int) =~= orig);
    out
}

/// The clean form of a whole document: each segment projected, in order.
pub fn normalize(info: raw::FullSplitInfo) -> (r: Vec<Segment>)
    ensures
        segment_views(r@) == segments_of(info.0@),
{
    segments_from(info.0)
}

/// Normalization is a function of the raw document: any two results of
/// normalizing the same document are equal.
pub proof fn lemma_normalize_deterministic(info: raw::FullSplitInfo, a: Seq<Segment>, b: Seq<Segment>)
    requires
        segment_views(a) == segments_of(info.0@),
        segment_views(b) == segments_of(info.0@),
    ensures
        segment_views(a) == segment_views(b),
{
}

/// A counter whose ordinal flag is the array shape is not an ordinal; one whose
/// flag is a boolean keeps it.
pub proof fn lemma_ordinal_resolution(value: String, flag: bool, array: Vec<crate::json::Json>)
    ensures
        counter_of(raw::Counter { value, ordinal: raw::Ordinal::Vec(array) }).ordinal == false,
        counter_of(raw::Counter { value, ordinal: raw::Ordinal::Bool(flag) }).ordinal == flag,
        counter_of(raw::Counter { value, ordinal: raw::Ordinal::Bool(flag) }).value == value@,
{
}

/// An interpretation given alone and the same interpretation given as the only
/// member of a wrapped list normalize to the same one-element list.
pub proof fn lemma_alternatives_shape(alternative: raw::Alternative, wrapped: Vec<raw::Alternative>)
    requires
        wrapped@ == seq![alternative],
    ensures
        alternatives_of(raw::Alternatives::WordInfo(alternative)) == alternatives_of(
            raw::Alternatives::Alternatives { alternative: wrapped },
        ),
        alternatives_of(raw::Alternatives::WordInfo(alternative)) == seq![alternative_of(alternative)],
{
    assert(alternative_list_of(wrapped@) =~= seq![alternative_of(alternative)]);
}

/// Normalizing a document keeps its segments in order: text segments keep their
/// text, and each candidate segmentation keeps its score and the romanization
/// of each of its words, in order.
pub proof fn lemma_normalize_keeps_segments(info: raw::FullSplitInfo, i: int)
    requires
        0 <= i < info.0@.len(),
    ensures
        segments_of(info.0@).len() == info.0@.len(),
        info.0@[i] is Other ==> segments_of(info.0@)[i] == SegmentView::Other(info.0@[i]->Other_0@),
        info.0@[i] is Segmentations ==> {
            let v = info.0@[i]->Segmentations_0@;
            &&& segments_of(info.0@)[i] is Segmentations
            &&& segments_of(info.0@)[i]->Segmentations_0.len() == v.len()
            &&& forall|j: int| 0 <= j < v.len() ==> {
                let n = #[trigger] segments_of(info.0@)[i]->Segmentations_0[j];
                &&& n.score == v[j].1
                &&& n.words.len() == v[j].0@.len()
                &&& forall|k: int| 0 <= k < v[j].0@.len() ==> #[trigger] n.words[k].romanized == v[j].0@[k].0@
            }
        },
{
}

/// Normalizing a word keeps its spelling, score, dictionary id and suffix, and
/// each of its glosses' part of speech, meaning and note, in order; a counter
/// with a boolean ordinal flag keeps it.
pub proof fn lemma_normalize_keeps_word_info(w: raw::WordInfo)
    ensures
        word_info_of(w).reading == w.reading@,
        word_info_of(w).text == w.text@,
        word_info_of(w).kana == w.kana@,
        word_info_of(w).score == w.score,
        word_info_of(w).seq == w.seq,
        word_info_of(w).suffix == opt_view(w.suffix),
        word_info_of(w).gloss.len() == w.gloss@.len(),
        forall|g: int| 0 <= g < w.gloss@.len() ==> {
            let n = #[trigger] word_info_of(w).gloss[g];
            n.pos == w.gloss@[g].pos@ && n.gloss == w.gloss@[g].gloss@ && n.info == opt_view(w.gloss@[g].info)
        },
        w.counter matches Some(c) ==> (c.ordinal matches raw::Ordinal::Bool(b) ==> word_info_of(w).counter
            == Some(CounterView { value: c.value@, ordinal: b })),
{
}

} // verus!
