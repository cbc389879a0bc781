//! Jigsaw structures: template pools and the blocks that join their pieces.

use super::geometry::{
    fits, opposite_of, BlockDirection, BlockMirror, BlockPos, BlockRotation,
};
use super::piece::StructurePiece;
use super::template::{
    get_int, get_string_or_empty, int_of, nbt_model, or_empty, property_of, text_of, PaletteEntry,
    TemplateBlock,
};
use crate::random::{shuffle, shuffled, RandomSource};
use crate::registry::{from_name, id_with_key, plain_key, Entry};
use crate::text::{
    chars_of, contains_text, copy_text, find, find_char, find_text, holds_text, place_of, str_eq,
    string_of,
};
use vstd::prelude::*;
use vstd::slice::slice_subrange;

verus! {

/// How a piece follows the ground.
#[derive(Clone, Copy, Debug, PartialEq, Eq, Structural)]
pub enum JigsawProjection {
    Rigid,
    TerrainMatching,
}

/// The processors of a piece.
#[derive(Debug)]
pub enum ProcessorListRef {
    Named(String),
    Empty,
}

impl Default for ProcessorListRef {
    fn default() -> (r: Self)
        ensures
            r == ProcessorListRef::Empty,
    {
        ProcessorListRef::Empty
    }
}

impl View for ProcessorListRef {
    type V = Option<Seq<char>>;

    /// The name of the list, where there is one.
    open spec fn view(&self) -> Option<Seq<char>> {
        match self {
            ProcessorListRef::Named(name) => Some(name@),
            ProcessorListRef::Empty => None,
        }
    }
}

impl ProcessorListRef {
    fn copy(&self) -> (r: Self)
        ensures
            r@ == self@,
    {
        match self {
            ProcessorListRef::Named(name) => ProcessorListRef::Named(copy_text(name)),
            ProcessorListRef::Empty => ProcessorListRef::Empty,
        }
    }
}

/// What a pool can put in a place.
#[derive(Debug)]
pub enum PoolElementKind {
    Empty,
    Single { template: String, processors: ProcessorListRef, legacy: bool },
    List(Vec<PoolElementKind>),
    Feature(u16),
}

/// What an element puts in its place.
pub enum KindModel {
    Empty,
    Single { template: Seq<char>, processors: Option<Seq<char>>, legacy: bool },
    List(Seq<KindModel>),
    Feature(u16),
}

/// What an element puts in its place.
pub open spec fn kind_model(kind: PoolElementKind) -> KindModel
    decreases kind, 0nat,
{
    match kind {
        PoolElementKind::Empty => KindModel::Empty,
        PoolElementKind::Single { template, processors, legacy } => KindModel::Single {
            template: template@,
            processors: processors@,
            legacy,
        },
        PoolElementKind::List(kinds) => {
            proof {
                assert(decreases_to!(kind => kind->List_0));
                assert(decreases_to!(kinds => kinds@));
            }
            KindModel::List(kind_models(kinds@, kinds@.len()))
        },
        PoolElementKind::Feature(id) => KindModel::Feature(id),
    }
}

/// What the first `n` elements of a list put in their places.
pub open spec fn kind_models(kinds: Seq<PoolElementKind>, n: nat) -> Seq<KindModel>
    decreases kinds, n,
{
    if n == 0 || n > kinds.len() {
        Seq::empty()
    } else {
        kind_models(kinds, (n - 1) as nat).push(kind_model(kinds[n - 1]))
    }
}

proof fn lemma_kind_models_push(kinds: Seq<PoolElementKind>, kind: PoolElementKind, n: nat)
    requires
        n <= kinds.len(),
    ensures
        kind_models(kinds.push(kind), n) == kind_models(kinds, n),
    decreases n,
{
    if n > 0 {
        lemma_kind_models_push(kinds, kind, (n - 1) as nat);
    }
}

/// An element of a pool.
#[derive(Debug)]
pub struct PoolElement {
    pub weight: u32,
    pub projection: JigsawProjection,
    pub kind: PoolElementKind,
}

/// What an element is.
pub struct ElementModel {
    pub weight: u32,
    pub projection: JigsawProjection,
    pub kind: KindModel,
}

impl View for PoolElement {
    type V = ElementModel;

    open spec fn view(&self) -> ElementModel {
        ElementModel {
            weight: self.weight,
            projection: self.projection,
            kind: kind_model(self.kind),
        }
    }
}

/// Elements that one of is drawn.
#[derive(Debug)]
pub struct TemplatePool {
    pub id: String,
    pub fallback: String,
    pub elements: Vec<PoolElement>,
}

/// What a pool is.
pub struct PoolModel {
    pub id: Seq<char>,
    pub fallback: Seq<char>,
    pub elements: Seq<ElementModel>,
}

impl View for TemplatePool {
    type V = PoolModel;

    open spec fn view(&self) -> PoolModel {
        PoolModel {
            id: self.id@,
            fallback: self.fallback@,
            elements: self.elements@.map_values(|e: PoolElement| e@),
        }
    }
}

/// A projection as pool files name it.
#[derive(Clone, Copy, Debug, PartialEq, Eq, Structural)]
pub enum RawProjection {
    Rigid,
    TerrainMatching,
}

impl vstd::std_specs::convert::FromSpecImpl<RawProjection> for JigsawProjection {
    open spec fn obeys_from_spec() -> bool {
        true
    }

    open spec fn from_spec(value: RawProjection) -> Self {
        match value {
            RawProjection::Rigid => JigsawProjection::Rigid,
            RawProjection::TerrainMatching => JigsawProjection::TerrainMatching,
        }
    }
}

impl From<RawProjection> for JigsawProjection {
    fn from(value: RawProjection) -> (r: Self) {
        match value {
            RawProjection::Rigid => JigsawProjection::Rigid,
            RawProjection::TerrainMatching => JigsawProjection::TerrainMatching,
        }
    }
}

/// The projection that a pool file names.
pub open spec fn projected(value: RawProjection) -> JigsawProjection {
    match value {
        RawProjection::Rigid => JigsawProjection::Rigid,
        RawProjection::TerrainMatching => JigsawProjection::TerrainMatching,
    }
}

/// Processors as pool files name them: a list by name, or one that is written out, of which
/// only empty ones occur.
#[derive(Debug)]
pub enum RawProcessorList {
    Named(String),
    Inline,
}

/// The name of a list, where it has one.
pub open spec fn list_name(list: RawProcessorList) -> Option<Seq<char>> {
    match list {
        RawProcessorList::Named(name) => Some(name@),
        RawProcessorList::Inline => None,
    }
}

/// An element as pool files hold it.
#[derive(Debug)]
pub enum RawPoolElement {
    Empty,
    Single { location: String, processors: RawProcessorList, projection: RawProjection },
    LegacySingle { location: String, processors: RawProcessorList, projection: RawProjection },
    List { elements: Vec<RawPoolElement>, projection: RawProjection },
    Feature { feature: String, projection: RawProjection },
}

/// What an element of a pool file puts in its place: nothing is known of a feature that is
/// not registered.
pub open spec fn raw_kind(raw: RawPoolElement, features: Seq<Entry>) -> Option<
    (KindModel, JigsawProjection),
>
    decreases raw, 0nat,
{
    match raw {
        RawPoolElement::Empty => Some((KindModel::Empty, JigsawProjection::Rigid)),
        RawPoolElement::Single { location, processors, projection } => Some(
            (
                KindModel::Single {
                    template: location@,
                    processors: list_name(processors),
                    legacy: false,
                },
                projected(projection),
            ),
        ),
        RawPoolElement::LegacySingle { location, processors, projection } => Some(
            (
                KindModel::Single {
                    template: location@,
                    processors: list_name(processors),
                    legacy: true,
                },
                projected(projection),
            ),
        ),
        RawPoolElement::List { elements, projection } => {
            proof {
                assert(decreases_to!(raw => raw->List_elements));
                assert(decreases_to!(elements => elements@));
            }
            Some(
                (
                    KindModel::List(raw_kinds(elements@, elements@.len(), features)),
                    projected(projection),
                ),
            )
        },
        RawPoolElement::Feature { feature, projection } => match id_with_key(
            features,
            plain_key(feature@),
            0,
        ) {
            Some(id) => Some((KindModel::Feature(id), projected(projection))),
            None => None,
        },
    }
}

/// What the first `n` elements of a pool file's list put in their places; those that
/// nothing is known of are left out.
pub open spec fn raw_kinds(raws: Seq<RawPoolElement>, n: nat, features: Seq<Entry>) -> Seq<
    KindModel,
>
    decreases raws, n,
{
    if n == 0 || n > raws.len() {
        Seq::empty()
    } else {
        let before = raw_kinds(raws, (n - 1) as nat, features);
        match raw_kind(raws[n - 1], features) {
            Some((kind, _)) => before.push(kind),
            None => before,
        }
    }
}

impl RawPoolElement {
    fn single(
        location: &String,
        processors: &RawProcessorList,
        projection: RawProjection,
        legacy: bool,
    ) -> (r: (PoolElementKind, JigsawProjection))
        ensures
            kind_model(r.0) == (KindModel::Single {
                template: location@,
                processors: list_name(*processors),
                legacy,
            }),
            r.1 == projected(projection),
    {
        let list = match processors {
            RawProcessorList::Named(name) => ProcessorListRef::Named(copy_text(name)),
            RawProcessorList::Inline => ProcessorListRef::Empty,
        };
        (
            PoolElementKind::Single { template: copy_text(location), processors: list, legacy },
            JigsawProjection::from(projection),
        )
    }

    /// Turns an element of a pool file into one of a pool.
    pub fn into_element(&self, features: &Vec<Entry>) -> (r: Option<
        (PoolElementKind, JigsawProjection),
    >)
        ensures
            match raw_kind(*self, features@) {
                Some((kind, projection)) => r is Some && kind_model((r->0).0) == kind && (r->0).1
                    == projection,
                None => r is None,
            },
        decreases self,
    {
        match self {
            RawPoolElement::Empty => Some((PoolElementKind::Empty, JigsawProjection::Rigid)),
            RawPoolElement::Single { location, processors, projection } => Some(
                Self::single(location, processors, *projection, false),
            ),
            RawPoolElement::LegacySingle { location, processors, projection } => Some(
                Self::single(location, processors, *projection, true),
            ),
            RawPoolElement::List { elements, projection } => {
                let mut kinds: Vec<PoolElementKind> = Vec::new();
                let mut i: usize = 0;
                while i < elements.len()
                    invariant
                        i <= elements@.len(),
                        *self == (RawPoolElement::List {
                            elements: *elements,
                            projection: *projection,
                        }),
                        kind_models(kinds@, kinds@.len()) == raw_kinds(
                            elements@,
                            i as nat,
                            features@,
                        ),
                    decreases elements.len() - i,
                {
                    assert(decreases_to!(self => self->List_elements));
                    assert(decreases_to!(elements => elements@));
                    assert(decreases_to!(elements@ => elements@[i as int]));
                    if let Some((kind, _)) = elements[i].into_element(features) {
                        let ghost before = kinds@;
                        proof {
                            lemma_kind_models_push(before, kind, before.len());
                        }
                        kinds.push(kind);
                    }
                    i = i + 1;
                }
                Some((PoolElementKind::List(kinds), JigsawProjection::from(*projection)))
            },
            RawPoolElement::Feature { feature, projection } => match from_name(
                features,
                feature.as_str(),
            ) {
                Some(id) => Some(
                    (PoolElementKind::Feature(id), JigsawProjection::from(*projection)),
                ),
                None => None,
            },
        }
    }
}

/// The place of the first template of an element that is known.
pub open spec fn first_known(kind: PoolElementKind, templates: Seq<String>) -> Option<usize>
    decreases kind, 0nat,
{
    match kind {
        PoolElementKind::Single { template, .. } => place_of(templates, template@, 0),
        PoolElementKind::List(kinds) => {
            proof {
                assert(decreases_to!(kind => kind->List_0));
                assert(decreases_to!(kinds => kinds@));
            }
            first_known_from(kinds@, 0, templates)
        },
        _ => None,
    }
}

/// The place of the first template of the elements from the `from`th on that is known.
pub open spec fn first_known_from(
    kinds: Seq<PoolElementKind>,
    from: nat,
    templates: Seq<String>,
) -> Option<usize>
    decreases kinds, kinds.len() - from,
{
    if from >= kinds.len() {
        None
    } else {
        match first_known(kinds[from as int], templates) {
            Some(place) => Some(place),
            None => first_known_from(kinds, from + 1, templates),
        }
    }
}

fn find_first(kind: &PoolElementKind, templates: &Vec<String>) -> (r: Option<usize>)
    ensures
        r == first_known(*kind, templates@),
    decreases kind,
{
    match kind {
        PoolElementKind::Single { template, .. } => find_text(templates, template.as_str()),
        PoolElementKind::List(kinds) => {
            let mut i: usize = 0;
            while i < kinds.len()
                invariant
                    i <= kinds@.len(),
                    *kind == PoolElementKind::List(*kinds),
                    first_known_from(kinds@, 0, templates@) == first_known_from(
                        kinds@,
                        i as nat,
                        templates@,
                    ),
                decreases kinds.len() - i,
            {
                assert(decreases_to!(kind => kind->List_0));
                assert(decreases_to!(kinds => kinds@));
                assert(decreases_to!(kinds@ => kinds@[i as int]));
                if let Some(place) = find_first(&kinds[i], templates) {
                    return Some(place);
                }
                i = i + 1;
            }
            None
        },
        PoolElementKind::Empty => None,
        PoolElementKind::Feature(_) => None,
    }
}

/// A template that an element uses.
#[derive(Debug)]
pub struct TemplateUse {
    pub name: String,
    pub processors: ProcessorListRef,
    pub legacy: bool,
    /// The place of the template among the known ones.
    pub template: usize,
}

/// What a use of a template is.
pub struct UseModel {
    pub name: Seq<char>,
    pub processors: Option<Seq<char>>,
    pub legacy: bool,
    pub template: usize,
}

impl View for TemplateUse {
    type V = UseModel;

    open spec fn view(&self) -> UseModel {
        UseModel {
            name: self.name@,
            processors: self.processors@,
            legacy: self.legacy,
            template: self.template,
        }
    }
}

/// The uses of an element, in order: a template that is not known is not used.
pub open spec fn uses_of(kind: PoolElementKind, templates: Seq<String>) -> Seq<UseModel>
    decreases kind, 0nat,
{
    match kind {
        PoolElementKind::Single { template, processors, legacy } => match place_of(
            templates,
            template@,
            0,
        ) {
            Some(place) => seq![
                UseModel { name: template@, processors: processors@, legacy, template: place },
            ],
            None => Seq::empty(),
        },
        PoolElementKind::List(kinds) => {
            proof {
                assert(decreases_to!(kind => kind->List_0));
                assert(decreases_to!(kinds => kinds@));
            }
            uses_of_first(kinds@, kinds@.len(), templates)
        },
        _ => Seq::empty(),
    }
}

/// The uses of the first `n` elements of a list, in order.
pub open spec fn uses_of_first(
    kinds: Seq<PoolElementKind>,
    n: nat,
    templates: Seq<String>,
) -> Seq<UseModel>
    decreases kinds, n,
{
    if n == 0 || n > kinds.len() {
        Seq::empty()
    } else {
        uses_of_first(kinds, (n - 1) as nat, templates) + uses_of(kinds[n - 1], templates)
    }
}

/// What uses of templates are.
pub open spec fn use_models(uses: Seq<TemplateUse>) -> Seq<UseModel> {
    uses.map_values(|u: TemplateUse| u@)
}

fn visit(kind: &PoolElementKind, templates: &Vec<String>, uses: &mut Vec<TemplateUse>)
    ensures
        use_models(final(uses)@) == use_models(old(uses)@) + uses_of(*kind, templates@),
    decreases kind,
{
    match kind {
        PoolElementKind::Single { template, processors, legacy } => {
            match find_text(templates, template.as_str()) {
                Some(place) => {
                    let used = TemplateUse {
                        name: copy_text(template),
                        processors: processors.copy(),
                        legacy: *legacy,
                        template: place,
                    };
                    uses.push(used);
                    assert(use_models(uses@) =~= use_models(old(uses)@) + uses_of(
                        *kind,
                        templates@,
                    ));
                },
                None => {
                    assert(use_models(uses@) =~= use_models(old(uses)@) + uses_of(
                        *kind,
                        templates@,
                    ));
                },
            }
        },
        PoolElementKind::List(kinds) => {
            let mut i: usize = 0;
            assert(use_models(uses@) =~= use_models(old(uses)@) + uses_of_first(
                kinds@,
                0,
                templates@,
            ));
            while i < kinds.len()
                invariant
                    i <= kinds@.len(),
                    *kind == PoolElementKind::List(*kinds),
                    use_models(uses@) == use_models(old(uses)@) + uses_of_first(
                        kinds@,
                        i as nat,
                        templates@,
                    ),
                decreases kinds.len() - i,
            {
                assert(decreases_to!(kind => kind->List_0));
                assert(decreases_to!(kinds => kinds@));
                assert(decreases_to!(kinds@ => kinds@[i as int]));
                visit(&kinds[i], templates, uses);
                assert(use_models(uses@) =~= use_models(old(uses)@) + uses_of_first(
                    kinds@,
                    (i + 1) as nat,
                    templates@,
                ));
                i = i + 1;
            }
        },
        PoolElementKind::Empty => {
            assert(use_models(uses@) =~= use_models(old(uses)@) + uses_of(*kind, templates@));
        },
        PoolElementKind::Feature(_) => {
            assert(use_models(uses@) =~= use_models(old(uses)@) + uses_of(*kind, templates@));
        },
    }
}

/// Whether an element is, or lists, a template of an abandoned village.
pub open spec fn uses_zombies(kind: PoolElementKind) -> bool
    decreases kind, 0nat,
{
    match kind {
        PoolElementKind::Single { template, .. } => holds_text(template@, "/zombie/"@),
        PoolElementKind::List(kinds) => {
            proof {
                assert(decreases_to!(kind => kind->List_0));
                assert(decreases_to!(kinds => kinds@));
            }
            any_uses_zombies(kinds@, kinds@.len())
        },
        _ => false,
    }
}

/// Whether one of the first `n` elements is, or lists, a template of an abandoned village.
pub open spec fn any_uses_zombies(kinds: Seq<PoolElementKind>, n: nat) -> bool
    decreases kinds, n,
{
    if n == 0 || n > kinds.len() {
        false
    } else {
        any_uses_zombies(kinds, (n - 1) as nat) || uses_zombies(kinds[n - 1])
    }
}

/// Whether a kind is, or lists, a template of an abandoned village.
pub fn contains_zombie_template(kind: &PoolElementKind) -> (r: bool)
    ensures
        r == uses_zombies(*kind),
    decreases kind,
{
    match kind {
        PoolElementKind::Single { template, .. } => contains_text(template.as_str(), "/zombie/"),
        PoolElementKind::List(kinds) => {
            let mut i: usize = 0;
            let mut found = false;
            while i < kinds.len()
                invariant
                    i <= kinds@.len(),
                    *kind == PoolElementKind::List(*kinds),
                    found == any_uses_zombies(kinds@, i as nat),
                decreases kinds.len() - i,
            {
                assert(decreases_to!(kind => kind->List_0));
                assert(decreases_to!(kinds => kinds@));
                assert(decreases_to!(kinds@ => kinds@[i as int]));
                found = found || contains_zombie_template(&kinds[i]);
                i = i + 1;
            }
            found
        },
        PoolElementKind::Empty => false,
        PoolElementKind::Feature(_) => false,
    }
}

impl PoolElement {
    /// Whether the element puts nothing in its place.
    pub fn is_empty(&self) -> (r: bool)
        ensures
            r == (self.kind is Empty),
    {
        match self.kind {
            PoolElementKind::Empty => true,
            _ => false,
        }
    }

    /// How far the ground lies above the piece's lowest block.
    pub fn ground_level_delta(&self) -> (r: i32)
        ensures
            r == 1,
    {
        1
    }

    /// The place of the element's first template among the known ones.
    pub fn first_template(&self, templates: &Vec<String>) -> (r: Option<usize>)
        ensures
            r == first_known(self.kind, templates@),
    {
        find_first(&self.kind, templates)
    }

    /// Adds the element's uses of templates, in order.
    pub fn for_each_template(&self, templates: &Vec<String>, uses: &mut Vec<TemplateUse>)
        ensures
            use_models(final(uses)@) == use_models(old(uses)@) + uses_of(self.kind, templates@),
    {
        visit(&self.kind, templates, uses);
    }

    /// The feature that the element is.
    pub fn feature(&self) -> (r: Option<u16>)
        ensures
            r == match self.kind {
                PoolElementKind::Feature(id) => Some(id),
                _ => None,
            },
    {
        match self.kind {
            PoolElementKind::Feature(id) => Some(id),
            _ => None,
        }
    }
}

/// The weights of the first `n` elements, together.
pub open spec fn weight_of_first(elements: Seq<PoolElement>, n: nat) -> int
    decreases n,
{
    if n == 0 {
        0
    } else {
        weight_of_first(elements, (n - 1) as nat) + elements[n - 1].weight
    }
}

/// The weights of a pool's elements, together.
pub open spec fn total_weight(elements: Seq<PoolElement>) -> int {
    weight_of_first(elements, elements.len())
}

proof fn lemma_weight_monotone(elements: Seq<PoolElement>, n: nat, m: nat)
    requires
        n <= m,
    ensures
        0 <= weight_of_first(elements, n) <= weight_of_first(elements, m),
    decreases m,
{
    if n < m {
        lemma_weight_monotone(elements, n, (m - 1) as nat);
    } else if n > 0 {
        lemma_weight_monotone(elements, (n - 1) as nat, (n - 1) as nat);
    }
}

/// The element that a roll falls on: each takes as many rolls as it weighs.
pub open spec fn element_at(elements: Seq<PoolElement>, roll: int, from: nat) -> int
    decreases elements.len() - from,
{
    if from >= elements.len() {
        0
    } else if roll < elements[from as int].weight {
        from as int
    } else {
        element_at(elements, roll - elements[from as int].weight, from + 1)
    }
}

/// The element that is drawn from a pool, and the source behind the draw.
pub open spec fn random_element<R: RandomSource>(elements: Seq<PoolElement>, rng: R) -> (int, R) {
    let total = total_weight(elements);
    if total == 0 {
        (0, rng)
    } else {
        (element_at(elements, rng.bounded(total), 0), rng.after_bounded(total))
    }
}

/// `n` copies of a place behind a list.
pub open spec fn with_copies(s: Seq<usize>, place: usize, n: nat) -> Seq<usize>
    decreases n,
{
    if n == 0 {
        s
    } else {
        with_copies(s, place, (n - 1) as nat).push(place)
    }
}

/// The places of the first `n` elements, each as often as it weighs.
pub open spec fn repeated(elements: Seq<PoolElement>, n: nat) -> Seq<usize>
    decreases n,
{
    if n == 0 {
        Seq::empty()
    } else {
        with_copies(
            repeated(elements, (n - 1) as nat),
            (n - 1) as usize,
            elements[n - 1].weight as nat,
        )
    }
}

/// The places of a pool's elements, each as often as it weighs, shuffled.
pub open spec fn shuffled_elements<R: RandomSource>(elements: Seq<PoolElement>, rng: R) -> (
    Seq<usize>,
    R,
) {
    let all = repeated(elements, elements.len());
    shuffled(all, all.len() - 1, rng)
}

/// Where the elements of a pool come from.
#[derive(Debug)]
pub enum PoolSource {
    /// A pool file.
    Parsed(RawTemplatePool),
    /// A pool file that cannot be read.
    Unreadable,
    /// The names of templates, where there is no pool file.
    Names(Vec<String>),
    /// Nothing at all.
    Missing,
}

/// A pool as its file holds it.
#[derive(Debug)]
pub struct RawTemplatePool {
    pub fallback: String,
    pub elements: Vec<RawWeightedPoolElement>,
}

/// An element of a pool file with its weight.
#[derive(Debug)]
pub struct RawWeightedPoolElement {
    pub element: RawPoolElement,
    pub weight: u32,
}

/// The first `n` elements of a pool file; those that nothing is known of are left out.
pub open spec fn parsed_elements(
    raws: Seq<RawWeightedPoolElement>,
    n: nat,
    features: Seq<Entry>,
) -> Seq<ElementModel>
    decreases n,
{
    if n == 0 {
        Seq::empty()
    } else {
        let before = parsed_elements(raws, (n - 1) as nat, features);
        match raw_kind(raws[n - 1].element, features) {
            Some((kind, projection)) => before.push(
                ElementModel { weight: raws[n - 1].weight, projection, kind },
            ),
            None => before,
        }
    }
}

/// The projection of a pool without a file: streets follow the ground.
pub open spec fn default_projection(id: Seq<char>) -> JigsawProjection {
    if holds_text(id, "streets"@) {
        JigsawProjection::TerrainMatching
    } else {
        JigsawProjection::Rigid
    }
}

/// An element that is one template.
pub open spec fn named_element(id: Seq<char>, name: Seq<char>) -> ElementModel {
    ElementModel {
        weight: 1,
        projection: default_projection(id),
        kind: KindModel::Single { template: name, processors: None, legacy: false },
    }
}

/// Whether an id is that of the empty pool.
pub open spec fn is_empty_id(id: Seq<char>) -> bool {
    id == "minecraft:empty"@ || id == "empty"@
}

/// The pool with an id.
pub open spec fn pool_of(id: Seq<char>, source: PoolSource, features: Seq<Entry>) -> Option<
    PoolModel,
> {
    if is_empty_id(id) {
        Some(
            PoolModel {
                id: "minecraft:empty"@,
                fallback: "minecraft:empty"@,
                elements: Seq::empty(),
            },
        )
    } else {
        match source {
            PoolSource::Parsed(raw) => Some(
                PoolModel {
                    id,
                    fallback: raw.fallback@,
                    elements: parsed_elements(raw.elements@, raw.elements@.len(), features),
                },
            ),
            PoolSource::Unreadable => None,
            PoolSource::Names(names) => Some(
                PoolModel {
                    id,
                    fallback: "minecraft:empty"@,
                    elements: names@.map_values(|name: String| named_element(id, name@)),
                },
            ),
            PoolSource::Missing => None,
        }
    }
}

impl TemplatePool {
    /// Sums the weights of the elements.
    fn weigh(&self) -> (r: u32)
        requires
            total_weight(self.elements@) <= u32::MAX,
        ensures
            r == total_weight(self.elements@),
    {
        let mut sum: u32 = 0;
        let mut i: usize = 0;
        while i < self.elements.len()
            invariant
                i <= self.elements@.len(),
                total_weight(self.elements@) <= u32::MAX,
                sum == weight_of_first(self.elements@, i as nat),
            decreases self.elements.len() - i,
        {
            proof {
                lemma_weight_monotone(self.elements@, (i + 1) as nat, self.elements@.len());
            }
            sum = sum + self.elements[i].weight;
            i = i + 1;
        }
        sum
    }

    /// Draws an element by weight.
    pub fn get_random_element<R: RandomSource>(&self, random: &mut R) -> (r: &PoolElement)
        requires
            self.elements@.len() > 0,
            total_weight(self.elements@) <= i32::MAX,
        ensures
            0 <= random_element(self.elements@, *old(random)).0 < self.elements@.len(),
            *r == self.elements@[random_element(self.elements@, *old(random)).0],
            *final(random) == random_element(self.elements@, *old(random)).1,
    {
        let total: u32 = self.weigh();
        if total == 0 {
            return &self.elements[0];
        }
        let mut roll: u32 = random.next_bounded_i32(total as i32) as u32;
        let ghost first = roll as int;
        let mut i: usize = 0;
        while i < self.elements.len()
            invariant
                i <= self.elements@.len(),
                self.elements@.len() > 0,
                element_at(self.elements@, first, 0) == element_at(
                    self.elements@,
                    roll as int,
                    i as nat,
                ),
                random_element(self.elements@, *old(random)).0 == element_at(
                    self.elements@,
                    first,
                    0,
                ),
                *random == random_element(self.elements@, *old(random)).1,
            decreases self.elements.len() - i,
        {
            if roll < self.elements[i].weight {
                return &self.elements[i];
            }
            roll = roll - self.elements[i].weight;
            i = i + 1;
        }
        &self.elements[0]
    }

    /// Makes a pool from what is known under its id.
    pub fn discover(id: &str, source: &PoolSource, features: &Vec<Entry>) -> (r: Option<Self>)
        ensures
            match pool_of(id@, *source, features@) {
                Some(pool) => r is Some && r->0@ == pool,
                None => r is None,
            },
    {
        if str_eq(id, "minecraft:empty") || str_eq(id, "empty") {
            let pool = TemplatePool {
                id: "minecraft:empty".to_owned(),
                fallback: "minecraft:empty".to_owned(),
                elements: Vec::new(),
            };
            assert(pool@.elements =~= Seq::<ElementModel>::empty());
            return Some(pool);
        }
        match source {
            PoolSource::Unreadable => None,
            PoolSource::Missing => None,
            PoolSource::Parsed(raw) => {
                let mut elements: Vec<PoolElement> = Vec::new();
                let mut i: usize = 0;
                assert(elements@.map_values(|e: PoolElement| e@) =~= Seq::<ElementModel>::empty());
                while i < raw.elements.len()
                    invariant
                        i <= raw.elements@.len(),
                        elements@.map_values(|e: PoolElement| e@) == parsed_elements(
                            raw.elements@,
                            i as nat,
                            features@,
                        ),
                    decreases raw.elements.len() - i,
                {
                    let ghost before = elements@;
                    if let Some((kind, projection)) = raw.elements[i].element.into_element(
                        features,
                    ) {
                        let element = PoolElement { weight: raw.elements[i].weight, projection, kind };
                        elements.push(element);
                        assert(elements@.map_values(|e: PoolElement| e@) =~= before.map_values(
                            |e: PoolElement| e@,
                        ).push(element@));
                    }
                    i = i + 1;
                }
                Some(
                    TemplatePool { id: id.to_owned(), fallback: copy_text(&raw.fallback), elements },
                )
            },
            PoolSource::Names(names) => {
                let projection = if contains_text(id, "streets") {
                    JigsawProjection::TerrainMatching
                } else {
                    JigsawProjection::Rigid
                };
                let mut elements: Vec<PoolElement> = Vec::new();
                let mut i: usize = 0;
                while i < names.len()
                    invariant
                        i <= names@.len(),
                        projection == default_projection(id@),
                        elements@.len() == i,
                        forall|k: int|
                            0 <= k < i ==> (#[trigger] elements@[k])@ == named_element(
                                id@,
                                names@[k]@,
                            ),
                    decreases names.len() - i,
                {
                    let element = PoolElement {
                        weight: 1,
                        projection,
                        kind: PoolElementKind::Single {
                            template: copy_text(&names[i]),
                            processors: ProcessorListRef::Empty,
                            legacy: false,
                        },
                    };
                    elements.push(element);
                    i = i + 1;
                }
                let pool = TemplatePool {
                    id: id.to_owned(),
                    fallback: "minecraft:empty".to_owned(),
                    elements,
                };
                assert(pool@.elements =~= names@.map_values(
                    |name: String| named_element(id@, name@),
                ));
                Some(pool)
            },
        }
    }

    /// The places of the elements, each as often as it weighs, in a drawn order.
    pub fn get_shuffled_elements<R: RandomSource>(&self, random: &mut R) -> (r: Vec<usize>)
        requires
            total_weight(self.elements@) <= i32::MAX,
        ensures
            (r@, *final(random)) == shuffled_elements(self.elements@, *old(random)),
    {
        let mut places: Vec<usize> = Vec::new();
        let mut i: usize = 0;
        while i < self.elements.len()
            invariant
                i <= self.elements@.len(),
                places@ == repeated(self.elements@, i as nat),
            decreases self.elements.len() - i,
        {
            let ghost before = places@;
            let weight: u32 = self.elements[i].weight;
            let mut k: u32 = 0;
            while k < weight
                invariant
                    k <= weight,
                    places@ == with_copies(before, i, k as nat),
                decreases weight - k,
            {
                places.push(i);
                k = k + 1;
            }
            i = i + 1;
        }
        proof {
            lemma_repeated_len(self.elements@, self.elements@.len());
        }
        shuffle(&mut places, random);
        places
    }
}

proof fn lemma_with_copies_len(s: Seq<usize>, place: usize, n: nat)
    ensures
        with_copies(s, place, n).len() == s.len() + n,
    decreases n,
{
    if n > 0 {
        lemma_with_copies_len(s, place, (n - 1) as nat);
    }
}

proof fn lemma_repeated_len(elements: Seq<PoolElement>, n: nat)
    ensures
        repeated(elements, n).len() == weight_of_first(elements, n),
    decreases n,
{
    if n > 0 {
        lemma_repeated_len(elements, (n - 1) as nat);
        lemma_with_copies_len(
            repeated(elements, (n - 1) as nat),
            (n - 1) as usize,
            elements[n - 1].weight as nat,
        );
    }
}

proof fn lemma_with_copies_count(s: Seq<usize>, place: usize, n: nat, k: usize)
    ensures
        with_copies(s, place, n).to_multiset().count(k) == s.to_multiset().count(k) + if k == place {
            n
        } else {
            0
        },
    decreases n,
{
    broadcast use vstd::seq_lib::group_to_multiset_ensures;

    if n > 0 {
        lemma_with_copies_count(s, place, (n - 1) as nat, k);
    }
}

proof fn lemma_repeated_count(elements: Seq<PoolElement>, n: nat, k: usize)
    requires
        n <= elements.len() <= usize::MAX,
    ensures
        repeated(elements, n).to_multiset().count(k) == if k < n {
            elements[k as int].weight as nat
        } else {
            0
        },
    decreases n,
{
    broadcast use vstd::seq_lib::group_to_multiset_ensures;

    if n > 0 {
        lemma_repeated_count(elements, (n - 1) as nat, k);
        lemma_with_copies_count(
            repeated(elements, (n - 1) as nat),
            (n - 1) as usize,
            elements[n - 1].weight as nat,
            k,
        );
    }
}

/// A shuffled pool holds every element exactly as often as it weighs.
pub proof fn law_shuffled_elements_by_weight<R: RandomSource>(
    elements: Seq<PoolElement>,
    rng: R,
    k: usize,
)
    requires
        elements.len() <= usize::MAX,
        k < elements.len(),
    ensures
        shuffled_elements(elements, rng).0.to_multiset().count(k) == elements[k as int].weight,
{
    lemma_repeated_count(elements, elements.len(), k);
    crate::random::law_shuffle_keeps_items(repeated(elements, elements.len()), rng);
}

proof fn lemma_element_at(elements: Seq<PoolElement>, roll: int, from: nat)
    requires
        from <= elements.len(),
        0 <= roll < total_weight(elements) - weight_of_first(elements, from),
    ensures
        from <= element_at(elements, roll, from) < elements.len(),
        elements[element_at(elements, roll, from)].weight > 0,
    decreases elements.len() - from,
{
    if from < elements.len() && roll >= elements[from as int].weight {
        lemma_element_at(elements, roll - elements[from as int].weight, from + 1);
    }
}

/// A pool that weighs something never draws an element without weight.
pub proof fn law_drawn_element_has_weight<R: RandomSource>(elements: Seq<PoolElement>, rng: R)
    requires
        total_weight(elements) > 0,
    ensures
        0 <= random_element(elements, rng).0 < elements.len(),
        elements[random_element(elements, rng).0].weight > 0,
{
    rng.draws_below(total_weight(elements));
    lemma_element_at(elements, rng.bounded(total_weight(elements)), 0);
}

/// How two pieces may be turned against each other.
#[derive(Clone, Copy, Debug, PartialEq, Eq, Structural)]
pub enum JigsawJointType {
    Rollable,
    Aligned,
}

/// The joint that a text names.
pub open spec fn joint_of(s: Seq<char>) -> JigsawJointType {
    if s == "aligned"@ {
        JigsawJointType::Aligned
    } else {
        JigsawJointType::Rollable
    }
}

impl JigsawJointType {
    /// The joint that a text names.
    pub fn from_str(s: &str) -> (r: Self)
        ensures
            r == joint_of(s@),
    {
        if str_eq(s, "aligned") {
            JigsawJointType::Aligned
        } else {
            JigsawJointType::Rollable
        }
    }
}

/// A block that joins pieces.
#[derive(Debug)]
pub struct JigsawBlock {
    pub pos: BlockPos,
    pub name: String,
    pub target: String,
    pub pool: String,
    pub final_state: String,
    pub joint: JigsawJointType,
    pub facing: BlockDirection,
    pub up: BlockDirection,
    pub selection_priority: i32,
    pub placement_priority: i32,
}

/// The direction that a text names, or another where it names none.
pub open spec fn direction_or(s: Seq<char>, other: BlockDirection) -> BlockDirection {
    if s == "north"@ {
        BlockDirection::North
    } else if s == "south"@ {
        BlockDirection::South
    } else if s == "east"@ {
        BlockDirection::East
    } else if s == "west"@ {
        BlockDirection::West
    } else if s == "up"@ {
        BlockDirection::Up
    } else if s == "down"@ {
        BlockDirection::Down
    } else {
        other
    }
}

fn direction_from(s: &str, other: BlockDirection) -> (r: BlockDirection)
    ensures
        r == direction_or(s@, other),
{
    if str_eq(s, "north") {
        BlockDirection::North
    } else if str_eq(s, "south") {
        BlockDirection::South
    } else if str_eq(s, "east") {
        BlockDirection::East
    } else if str_eq(s, "west") {
        BlockDirection::West
    } else if str_eq(s, "up") {
        BlockDirection::Up
    } else if str_eq(s, "down") {
        BlockDirection::Down
    } else {
        other
    }
}

/// The part of an orientation before its first underscore.
pub open spec fn front_part(s: Seq<char>) -> Seq<char> {
    s.take(find(s, '_') as int)
}

/// The part of an orientation between its first underscore and the next.
pub open spec fn top_part(s: Seq<char>) -> Seq<char> {
    if find(s, '_') < s.len() {
        front_part(s.skip(find(s, '_') as int + 1))
    } else {
        "up"@
    }
}

/// The orientation that a state's properties give.
pub open spec fn orientation(palette: PaletteEntry) -> Seq<char> {
    match property_of(palette.properties@, "orientation"@, 0) {
        Some(s) => s,
        None => "north_up"@,
    }
}

/// The two directions of an orientation.
fn split_orientation(s: &str) -> (r: (BlockDirection, BlockDirection))
    ensures
        r.0 == direction_or(front_part(s@), BlockDirection::North),
        r.1 == direction_or(top_part(s@), BlockDirection::Up),
{
    let chars = chars_of(s);
    let cut: usize = find_char(&chars, '_');
    proof {
        crate::text::lemma_find(s@, '_');
    }
    let front = string_of(slice_subrange(&chars, 0, cut));
    assert(front@ =~= front_part(s@));
    let facing = direction_from(front.as_str(), BlockDirection::North);
    let up = if cut < chars.len() {
        let rest = slice_subrange(&chars, cut + 1, chars.len());
        assert(rest@ =~= s@.skip(cut as int + 1));
        let next: usize = find_char(rest, '_');
        proof {
            crate::text::lemma_find(rest@, '_');
        }
        let top = string_of(slice_subrange(rest, 0, next));
        assert(top@ =~= top_part(s@));
        direction_from(top.as_str(), BlockDirection::Up)
    } else {
        direction_from("up", BlockDirection::Up)
    };
    (facing, up)
}

/// A number, or zero where there is none.
pub open spec fn or_zero(n: Option<i32>) -> i32 {
    match n {
        Some(n) => n,
        None => 0,
    }
}

impl JigsawBlock {
    /// Whether the block is what a template's data say.
    pub open spec fn is_from(self, pos: BlockPos, palette: PaletteEntry, data: Seq<
        (Seq<char>, super::template::NbtModel),
    >) -> bool {
        &&& self.pos == pos
        &&& self.name@ == or_empty(text_of(data, "name"@))
        &&& self.target@ == or_empty(text_of(data, "target"@))
        &&& self.pool@ == or_empty(text_of(data, "pool"@))
        &&& self.final_state@ == or_empty(text_of(data, "final_state"@))
        &&& self.joint == joint_of(or_empty(text_of(data, "joint"@)))
        &&& self.facing == direction_or(front_part(orientation(palette)), BlockDirection::North)
        &&& self.up == direction_or(top_part(orientation(palette)), BlockDirection::Up)
        &&& self.selection_priority == or_zero(int_of(data, "selection_priority"@))
        &&& self.placement_priority == or_zero(int_of(data, "placement_priority"@))
    }

    /// Reads a joining block off a template's block: other blocks, and those without data,
    /// are none.
    pub fn from_template_block(block: &TemplateBlock, palette: &PaletteEntry) -> (r: Option<Self>)
        ensures
            r is Some <==> palette.name@ == "minecraft:jigsaw"@ && block.nbt is Some,
            r is Some ==> r->0.is_from(block.pos, *palette, nbt_model(block.nbt->0@)),
    {
        if !str_eq(palette.name.as_str(), "minecraft:jigsaw") {
            return None;
        }
        match &block.nbt {
            None => None,
            Some(data) => {
                let text = match palette.property("orientation") {
                    Some(s) => s,
                    None => "north_up".to_owned(),
                };
                let (facing, up) = split_orientation(text.as_str());
                let joint = get_string_or_empty(data, "joint");
                Some(
                    JigsawBlock {
                        pos: block.pos,
                        name: get_string_or_empty(data, "name"),
                        target: get_string_or_empty(data, "target"),
                        pool: get_string_or_empty(data, "pool"),
                        final_state: get_string_or_empty(data, "final_state"),
                        joint: JigsawJointType::from_str(joint.as_str()),
                        facing,
                        up,
                        selection_priority: match get_int(data, "selection_priority") {
                            Some(n) => n,
                            None => 0,
                        },
                        placement_priority: match get_int(data, "placement_priority") {
                            Some(n) => n,
                            None => 0,
                        },
                    },
                )
            },
        }
    }

    /// Whether a block joins one that faces it and has the name that it looks for.
    pub fn can_attach(
        source: &Self,
        target_facing: BlockDirection,
        target_name: &str,
    ) -> (r: bool)
        ensures
            r == (opposite_of(source.facing) == target_facing && source.target@ == target_name@),
    {
        source.facing.opposite() == target_facing && str_eq(source.target.as_str(), target_name)
    }
}

/// Where two pieces meet.
#[derive(Clone, Copy, Debug, PartialEq, Eq, Structural)]
pub struct JigsawJunction {
    pub source_x: i32,
    pub source_ground_y: i32,
    pub source_z: i32,
    pub delta_y: i32,
    pub projection: JigsawProjection,
}

/// What becomes of water where a piece is placed.
#[derive(Clone, Copy, Debug, PartialEq, Eq, Structural)]
pub enum LiquidSettings {
    IgnoreWaterlogDone,
    ApplyWaterlog,
}

/// A placed element of a pool.
#[derive(Debug)]
pub struct PoolElementStructurePiece {
    pub piece: StructurePiece,
    pub element: PoolElement,
    pub pos: BlockPos,
    pub rotation: BlockRotation,
    pub mirror: BlockMirror,
    pub jigsaw_blocks: Vec<JigsawBlock>,
    pub junctions: Vec<JigsawJunction>,
    pub ground_level_delta: i32,
    pub liquid_settings: LiquidSettings,
    pub projection: JigsawProjection,
}

impl PoolElementStructurePiece {
    /// Notes where the piece meets another.
    pub fn add_junction(&mut self, junction: JigsawJunction)
        ensures
            final(self).junctions@ == old(self).junctions@.push(junction),
            final(self).piece == old(self).piece,
            final(self).element == old(self).element,
            final(self).pos == old(self).pos,
            final(self).rotation == old(self).rotation,
            final(self).mirror == old(self).mirror,
            final(self).jigsaw_blocks == old(self).jigsaw_blocks,
            final(self).ground_level_delta == old(self).ground_level_delta,
            final(self).liquid_settings == old(self).liquid_settings,
            final(self).projection == old(self).projection,
    {
        self.junctions.push(junction);
    }

    /// The piece as one of any structure.
    pub fn get_structure_piece(&self) -> (r: &StructurePiece)
        ensures
            *r == self.piece,
    {
        &self.piece
    }
}

/// How far a structure keeps from the top and the bottom of its world.
#[derive(Clone, Copy, Debug, PartialEq, Eq, Structural)]
pub struct DimensionPadding {
    pub top: i32,
    pub bottom: i32,
}

/// What a structure's settings say of its start.
#[derive(Debug)]
pub struct StructureSettings {
    pub start_height: Option<i16>,
    pub project_start_to_heightmap: bool,
    pub max_distance_from_center: Option<i32>,
    pub liquid_settings: Option<String>,
    pub dimension_padding: Option<i32>,
}

/// How a structure's assembly starts.
#[derive(Clone, Copy, Debug, PartialEq, Eq, Structural)]
pub struct StartRequest {
    pub start_pos: BlockPos,
    pub project_start_to_heightmap: bool,
    pub max_distance: i32,
    pub liquid_settings: LiquidSettings,
    pub dimension_padding: DimensionPadding,
}

/// The height that a structure starts at.
pub open spec fn start_height(settings: Option<&StructureSettings>, sea_level: i32) -> i32 {
    match settings {
        None => sea_level,
        Some(s) => match s.start_height {
            Some(y) => y as i32,
            None => (sea_level as i16) as i32,
        },
    }
}

/// How the assembly of a structure in a chunk starts.
pub open spec fn request_of(
    settings: Option<&StructureSettings>,
    chunk_x: i32,
    chunk_z: i32,
    sea_level: i32,
) -> StartRequest {
    StartRequest {
        start_pos: BlockPos {
            x: (chunk_x * 16) as i32,
            y: start_height(settings, sea_level),
            z: (chunk_z * 16) as i32,
        },
        project_start_to_heightmap: settings is Some && settings->0.project_start_to_heightmap,
        max_distance: match settings {
            None => 80,
            Some(s) => match s.max_distance_from_center {
                Some(d) => d,
                None => 80,
            },
        },
        liquid_settings: match settings {
            None => LiquidSettings::ApplyWaterlog,
            Some(s) => match s.liquid_settings {
                Some(text) => if text@ == "ignore_waterlogging"@ {
                    LiquidSettings::IgnoreWaterlogDone
                } else {
                    LiquidSettings::ApplyWaterlog
                },
                None => LiquidSettings::ApplyWaterlog,
            },
        },
        dimension_padding: match settings {
            None => DimensionPadding { top: 0, bottom: 0 },
            Some(s) => match s.dimension_padding {
                Some(p) => DimensionPadding { top: p, bottom: p },
                None => DimensionPadding { top: 0, bottom: 0 },
            },
        },
    }
}

/// Settles how the assembly of a structure in a chunk starts.
pub fn start_request(
    settings: Option<&StructureSettings>,
    chunk_x: i32,
    chunk_z: i32,
    sea_level: i32,
) -> (r: StartRequest)
    requires
        fits(chunk_x * 16),
        fits(chunk_z * 16),
    ensures
        r == request_of(settings, chunk_x, chunk_z, sea_level),
{
    let zero = DimensionPadding { top: 0, bottom: 0 };
    match settings {
        None => StartRequest {
            start_pos: BlockPos::new(chunk_x * 16, sea_level, chunk_z * 16),
            project_start_to_heightmap: false,
            max_distance: 80,
            liquid_settings: LiquidSettings::ApplyWaterlog,
            dimension_padding: zero,
        },
        Some(s) => StartRequest {
            start_pos: BlockPos::new(
                chunk_x * 16,
                match s.start_height {
                    Some(y) => y as i32,
                    None => (#[verifier::truncate] (sea_level as i16)) as i32,
                },
                chunk_z * 16,
            ),
            project_start_to_heightmap: s.project_start_to_heightmap,
            max_distance: match s.max_distance_from_center {
                Some(d) => d,
                None => 80,
            },
            liquid_settings: match &s.liquid_settings {
                Some(text) => if str_eq(text.as_str(), "ignore_waterlogging") {
                    LiquidSettings::IgnoreWaterlogDone
                } else {
                    LiquidSettings::ApplyWaterlog
                },
                None => LiquidSettings::ApplyWaterlog,
            },
            dimension_padding: match s.dimension_padding {
                Some(p) => DimensionPadding { top: p, bottom: p },
                None => zero,
            },
        },
    }
}

/// A structure that is assembled from pools.
#[derive(Debug)]
pub struct JigsawGenerator {
    pub start_pool: String,
    pub size: i32,
    pub start_jigsaw_name: Option<String>,
    pub use_expansion_hack: bool,
}

impl JigsawGenerator {
    /// A structure of a size that starts with an element of a pool.
    pub fn new(start_pool: &str, size: i32) -> (r: Self)
        ensures
            r.start_pool@ == start_pool@,
            r.size == size,
            r.start_jigsaw_name is None,
            !r.use_expansion_hack,
    {
        JigsawGenerator {
            start_pool: start_pool.to_owned(),
            size,
            start_jigsaw_name: None,
            use_expansion_hack: false,
        }
    }

    /// The same structure with the name of the joining block that it is placed by.
    pub fn with_start_jigsaw(self, name: &str) -> (r: Self)
        ensures
            r.start_jigsaw_name is Some,
            r.start_jigsaw_name->0@ == name@,
            r.start_pool == self.start_pool,
            r.size == self.size,
            r.use_expansion_hack == self.use_expansion_hack,
    {
        JigsawGenerator {
            start_pool: self.start_pool,
            size: self.size,
            start_jigsaw_name: Some(name.to_owned()),
            use_expansion_hack: self.use_expansion_hack,
        }
    }

    /// The same structure with its boxes expanded or not.
    pub fn with_expansion_hack(self, use_hack: bool) -> (r: Self)
        ensures
            r.use_expansion_hack == use_hack,
            r.start_pool == self.start_pool,
            r.size == self.size,
            r.start_jigsaw_name == self.start_jigsaw_name,
    {
        JigsawGenerator {
            start_pool: self.start_pool,
            size: self.size,
            start_jigsaw_name: self.start_jigsaw_name,
            use_expansion_hack: use_hack,
        }
    }
}

proof fn lemma_roll_falls(elements: Seq<PoolElement>, roll: int, from: nat, k: int)
    requires
        from <= k < elements.len(),
        weight_of_first(elements, k as nat) <= roll < weight_of_first(elements, (k + 1) as nat),
    ensures
        element_at(elements, roll - weight_of_first(elements, from), from) == k,
    decreases elements.len() - from,
{
    lemma_weight_monotone(elements, from, k as nat);
    if from < k {
        lemma_weight_monotone(elements, from + 1, k as nat);
        lemma_roll_falls(elements, roll, from + 1, k);
    }
}

/// A roll falls on an element just where it lies between the weights up to the element and the
/// weights through it: each takes as many rolls as it weighs, in order.
pub proof fn law_a_roll_falls_on_its_element(elements: Seq<PoolElement>, roll: int, k: int)
    requires
        0 <= k < elements.len(),
        0 <= roll < total_weight(elements),
    ensures
        element_at(elements, roll, 0) == k <==> weight_of_first(elements, k as nat) <= roll
            < weight_of_first(elements, (k + 1) as nat),
        weight_of_first(elements, 0) == 0,
        weight_of_first(elements, (k + 1) as nat) - weight_of_first(elements, k as nat)
            == elements[k].weight,
{
    if weight_of_first(elements, k as nat) <= roll < weight_of_first(elements, (k + 1) as nat) {
        lemma_roll_falls(elements, roll, 0, k);
    }
    lemma_element_at(elements, roll, 0);
    let e = element_at(elements, roll, 0);
    lemma_fallen_on(elements, roll, 0);
}

proof fn lemma_fallen_on(elements: Seq<PoolElement>, roll: int, from: nat)
    requires
        from <= elements.len(),
        weight_of_first(elements, from) <= roll < total_weight(elements),
    ensures
        ({
            let e = element_at(elements, roll - weight_of_first(elements, from), from);
            &&& from <= e < elements.len()
            &&& weight_of_first(elements, e as nat) <= roll < weight_of_first(
                elements,
                (e + 1) as nat,
            )
        }),
    decreases elements.len() - from,
{
    if roll - weight_of_first(elements, from) >= elements[from as int].weight {
        lemma_fallen_on(elements, roll, from + 1);
    }
}

/// The draw of an element is one draw below all weights together; without any weight the first
/// element is taken and nothing drawn.
pub proof fn law_elements_are_drawn_by_weight<R: RandomSource>(
    elements: Seq<PoolElement>,
    rng: R,
    k: int,
)
    requires
        0 <= k < elements.len(),
    ensures
        ({
            let total = weight_of_first(elements, elements.len());
            let (drawn, after) = random_element(elements, rng);
            &&& total == 0 ==> drawn == 0 && after == rng
            &&& total > 0 ==> after == rng.after_bounded(total) && (drawn == k
                <==> weight_of_first(elements, k as nat) <= rng.bounded(total) < weight_of_first(
                elements,
                (k + 1) as nat,
            ))
        }),
{
    lemma_weight_monotone(elements, 0, elements.len());
    let total = total_weight(elements);
    if total > 0 {
        rng.draws_below(total);
        law_a_roll_falls_on_its_element(elements, rng.bounded(total), k);
    }
}

/// Each of the six directions is named by its own text, and any other text names the one that
/// is taken by default.
pub proof fn law_directions_have_their_names(s: Seq<char>, other: BlockDirection)
    ensures
        direction_or("north"@, other) == BlockDirection::North,
        direction_or("south"@, other) == BlockDirection::South,
        direction_or("east"@, other) == BlockDirection::East,
        direction_or("west"@, other) == BlockDirection::West,
        direction_or("up"@, other) == BlockDirection::Up,
        direction_or("down"@, other) == BlockDirection::Down,
        s != "north"@ && s != "south"@ && s != "east"@ && s != "west"@ && s != "up"@ && s
            != "down"@ ==> direction_or(s, other) == other,
        joint_of("aligned"@) == JigsawJointType::Aligned,
        s != "aligned"@ ==> joint_of(s) == JigsawJointType::Rollable,
{
    reveal_strlit("north");
    reveal_strlit("south");
    reveal_strlit("east");
    reveal_strlit("west");
    reveal_strlit("up");
    reveal_strlit("down");
    assert("north"@[0] == 'n');
    assert("south"@[0] == 's');
    assert("east"@[0] == 'e');
    assert("west"@[0] == 'w');
    assert("up"@[0] == 'u');
    assert("down"@[0] == 'd');
}

/// An orientation is two texts with an underscore between them: where a block faces, and what
/// is up. One without an underscore tells only where a block faces.
pub proof fn law_orientations_are_split_at_the_underscore(front: Seq<char>, top: Seq<char>)
    requires
        !front.contains('_'),
        !top.contains('_'),
    ensures
        front_part(front + seq!['_'] + top) == front,
        top_part(front + seq!['_'] + top) == top,
        front_part(front) == front,
        top_part(front) == "up"@,
{
    let s = front + seq!['_'] + top;
    let n = front.len() as int;
    assert forall|i: int| 0 <= i < n implies #[trigger] s[i] != '_' by {
        assert(s[i] == front[i]);
        assert(front.contains(front[i]));
    }
    assert forall|i: int| 0 <= i < n implies #[trigger] front[i] != '_' by {
        assert(front.contains(front[i]));
    }
    assert forall|i: int| 0 <= i < top.len() implies #[trigger] top[i] != '_' by {
        assert(top.contains(top[i]));
    }
    crate::text::lemma_find_is(s, '_', n);
    crate::text::lemma_find_is(front, '_', n);
    crate::text::lemma_find_is(top, '_', top.len() as int);
    assert(s.take(n) =~= front);
    assert(front.take(n) =~= front);
    assert(s.skip(n + 1) =~= top);
    assert(top.take(top.len() as int) =~= top);
}

/// The uses of two lists of elements one behind the other are those of the first and then
/// those of the second; a list is a zombie one just where one of its elements is.
pub proof fn law_lists_are_used_in_order(
    a: Seq<PoolElementKind>,
    b: Seq<PoolElementKind>,
    templates: Seq<String>,
)
    ensures
        uses_of_first(a + b, (a + b).len(), templates) == uses_of_first(a, a.len(), templates)
            + uses_of_first(b, b.len(), templates),
        b.len() == 1 ==> uses_of_first(b, 1, templates) == uses_of(b[0], templates),
        any_uses_zombies(a, a.len()) <==> exists|i: int|
            0 <= i < a.len() && uses_zombies(#[trigger] a[i]),
{
    lemma_uses_in_order(a, b, b.len(), templates);
    lemma_any_zombies(a, a.len());
    if b.len() == 1 {
        reveal_with_fuel(uses_of_first, 2);
        assert(uses_of_first(b, 1, templates) =~= uses_of(b[0], templates));
    }
}

proof fn lemma_any_zombies(a: Seq<PoolElementKind>, n: nat)
    requires
        n <= a.len(),
    ensures
        any_uses_zombies(a, n) <==> exists|i: int| 0 <= i < n && uses_zombies(#[trigger] a[i]),
    decreases n,
{
    if n > 0 {
        lemma_any_zombies(a, (n - 1) as nat);
        if uses_zombies(a[n - 1]) {
            assert(exists|i: int| 0 <= i < n && uses_zombies(#[trigger] a[i]));
        }
        if any_uses_zombies(a, (n - 1) as nat) {
            let i = choose|i: int| 0 <= i < n - 1 && uses_zombies(#[trigger] a[i]);
            assert(0 <= i < n && uses_zombies(a[i]));
        }
    }
}

proof fn lemma_uses_prefix(
    a: Seq<PoolElementKind>,
    b: Seq<PoolElementKind>,
    n: nat,
    templates: Seq<String>,
)
    requires
        n <= a.len(),
    ensures
        uses_of_first(a + b, n, templates) == uses_of_first(a, n, templates),
    decreases n,
{
    if n > 0 {
        lemma_uses_prefix(a, b, (n - 1) as nat, templates);
        assert((a + b)[n - 1] == a[n - 1]);
    }
}

proof fn lemma_uses_in_order(
    a: Seq<PoolElementKind>,
    b: Seq<PoolElementKind>,
    n: nat,
    templates: Seq<String>,
)
    requires
        n <= b.len(),
    ensures
        uses_of_first(a + b, a.len() + n, templates) == uses_of_first(a, a.len(), templates)
            + uses_of_first(b, n, templates),
    decreases n,
{
    if n == 0 {
        lemma_uses_prefix(a, b, a.len(), templates);
        assert(uses_of_first(a, a.len(), templates) + uses_of_first(b, 0, templates)
            =~= uses_of_first(a, a.len(), templates));
    } else {
        lemma_uses_in_order(a, b, (n - 1) as nat, templates);
        assert((a + b)[a.len() + n - 1] == b[n - 1]);
        assert((a.len() + n - 1) as nat == a.len() + (n - 1) as nat);
        assert(uses_of_first(a + b, a.len() + n, templates) =~= uses_of_first(
            a,
            a.len(),
            templates,
        ) + uses_of_first(b, n, templates));
    }
}

/// What an element uses and what its first template is agree: the first template is that of
/// its first use, and an element without a known template uses none.
pub proof fn law_the_first_template_is_used_first(kind: PoolElementKind, templates: Seq<String>)
    ensures
        first_known(kind, templates) is None <==> uses_of(kind, templates).len() == 0,
        first_known(kind, templates) matches Some(place) ==> uses_of(kind, templates)[0].template
            == place,
    decreases kind, 0nat,
{
    match kind {
        PoolElementKind::List(kinds) => {
            assert(decreases_to!(kind => kind->List_0));
            assert(decreases_to!(kinds => kinds@));
            lemma_first_of_list(kinds@, kinds@.len(), templates);
        },
        _ => {},
    }
}

proof fn lemma_first_of_list(kinds: Seq<PoolElementKind>, n: nat, templates: Seq<String>)
    requires
        n <= kinds.len(),
    ensures
        n == kinds.len() ==> {
            &&& first_known_from(kinds, 0, templates) is None <==> uses_of_first(
                kinds,
                n,
                templates,
            ).len() == 0
            &&& first_known_from(kinds, 0, templates) matches Some(place) ==> uses_of_first(
                kinds,
                n,
                templates,
            )[0].template == place
        },
        uses_of_first(kinds, n, templates).len() == 0 ==> first_known_from(kinds, 0, templates)
            == first_known_from(kinds, n, templates),
        uses_of_first(kinds, n, templates).len() > 0 ==> first_known_from(kinds, 0, templates)
            == Some(uses_of_first(kinds, n, templates)[0].template),
    decreases kinds, n,
{
    if n > 0 {
        lemma_first_of_list(kinds, (n - 1) as nat, templates);
        law_the_first_template_is_used_first(kinds[n - 1], templates);
    }
}

/// A single template that is known is used once, as it is; one that is not known, a feature and
/// an empty element are not used.
pub proof fn law_known_templates_are_used(kind: PoolElementKind, templates: Seq<String>)
    ensures
        kind matches PoolElementKind::Single { template, processors, legacy } ==> {
            let place = place_of(templates, template@, 0);
            &&& place is None ==> uses_of(kind, templates).len() == 0
            &&& place is Some ==> {
                let used = uses_of(kind, templates)[0];
                &&& uses_of(kind, templates).len() == 1
                &&& used.name == template@
                &&& used.processors == processors@
                &&& used.legacy == legacy
                &&& used.template == place->0
            }
            &&& uses_zombies(kind) <==> holds_text(template@, "/zombie/"@)
        },
        kind is Empty || kind is Feature ==> uses_of(kind, templates).len() == 0 && !uses_zombies(
            kind,
        ) && first_known(kind, templates) is None,
{
}

/// An element of a pool file stays what it is: its template, its processors, its projection and
/// whether it is of the old kind. Only a feature that is not registered is left out.
pub proof fn law_elements_keep_what_they_are(raw: RawPoolElement, features: Seq<Entry>)
    ensures
        match raw {
            RawPoolElement::Empty => raw_kind(raw, features) == Some(
                (KindModel::Empty, JigsawProjection::Rigid),
            ),
            RawPoolElement::Single { location, processors, projection } => {
                &&& raw_kind(raw, features) matches Some((kind, ground)) && kind == (
                KindModel::Single {
                    template: location@,
                    processors: list_name(processors),
                    legacy: false,
                }) && (ground == JigsawProjection::Rigid <==> projection == RawProjection::Rigid)
            },
            RawPoolElement::LegacySingle { location, processors, projection } => {
                &&& raw_kind(raw, features) matches Some((kind, ground)) && kind == (
                KindModel::Single {
                    template: location@,
                    processors: list_name(processors),
                    legacy: true,
                }) && (ground == JigsawProjection::Rigid <==> projection == RawProjection::Rigid)
            },
            RawPoolElement::List { elements, projection } => {
                &&& raw_kind(raw, features) matches Some((kind, ground)) && kind is List && (ground
                    == JigsawProjection::Rigid <==> projection == RawProjection::Rigid)
            },
            RawPoolElement::Feature { feature, projection } => {
                let id = id_with_key(features, plain_key(feature@), 0);
                &&& raw_kind(raw, features) is Some <==> id is Some
                &&& raw_kind(raw, features) matches Some((kind, ground)) ==> kind
                    == KindModel::Feature(id->0) && (ground == JigsawProjection::Rigid
                    <==> projection == RawProjection::Rigid)
            },
        },
{
}

/// The elements of two pool files one behind the other are those of the first and then those of
/// the second; each keeps its weight.
pub proof fn law_pool_files_are_read_in_order(
    a: Seq<RawWeightedPoolElement>,
    b: Seq<RawWeightedPoolElement>,
    features: Seq<Entry>,
)
    ensures
        parsed_elements(a + b, (a + b).len(), features) == parsed_elements(a, a.len(), features)
            + parsed_elements(b, b.len(), features),
        b.len() == 1 ==> {
            let one = parsed_elements(b, 1, features);
            let kind = raw_kind(b[0].element, features);
            &&& kind is None ==> one.len() == 0
            &&& kind is Some ==> one.len() == 1 && one[0].weight == b[0].weight && one[0].kind
                == (kind->0).0 && one[0].projection == (kind->0).1
        },
{
    lemma_elements_in_order(a, b, b.len(), features);
    reveal_with_fuel(parsed_elements, 2);
}

proof fn lemma_elements_prefix(
    a: Seq<RawWeightedPoolElement>,
    b: Seq<RawWeightedPoolElement>,
    n: nat,
    features: Seq<Entry>,
)
    requires
        n <= a.len(),
    ensures
        parsed_elements(a + b, n, features) == parsed_elements(a, n, features),
    decreases n,
{
    if n > 0 {
        lemma_elements_prefix(a, b, (n - 1) as nat, features);
        assert((a + b)[n - 1] == a[n - 1]);
    }
}

proof fn lemma_elements_in_order(
    a: Seq<RawWeightedPoolElement>,
    b: Seq<RawWeightedPoolElement>,
    n: nat,
    features: Seq<Entry>,
)
    requires
        n <= b.len(),
    ensures
        parsed_elements(a + b, a.len() + n, features) == parsed_elements(a, a.len(), features)
            + parsed_elements(b, n, features),
    decreases n,
{
    if n == 0 {
        lemma_elements_prefix(a, b, a.len(), features);
        assert(parsed_elements(a, a.len(), features) + parsed_elements(b, 0, features)
            =~= parsed_elements(a, a.len(), features));
    } else {
        lemma_elements_in_order(a, b, (n - 1) as nat, features);
        assert((a + b)[a.len() + n - 1] == b[n - 1]);
        assert((a.len() + n - 1) as nat == a.len() + (n - 1) as nat);
        assert(parsed_elements(a + b, a.len() + n, features) =~= parsed_elements(
            a,
            a.len(),
            features,
        ) + parsed_elements(b, n, features));
    }
}

/// A pool without a file holds one rigid element for each template name, all of one weight;
/// those of streets follow the ground. A pool that cannot be found is none, but the empty pool
/// is always there, under either of its names.
pub proof fn law_pools_without_a_file(id: Seq<char>, source: PoolSource, features: Seq<Entry>, k: int)
    ensures
        id == "empty"@ || id == "minecraft:empty"@ ==> {
            &&& pool_of(id, source, features) matches Some(pool) && pool.elements.len() == 0
                && pool.id == "minecraft:empty"@ && pool.fallback == "minecraft:empty"@
        },
        id != "empty"@ && id != "minecraft:empty"@ ==> {
            &&& pool_of(id, source, features) is None <==> source is Unreadable || source
                is Missing
            &&& pool_of(id, source, features) matches Some(pool) ==> pool.id == id
            &&& source matches PoolSource::Parsed(raw) ==> {
                &&& pool_of(id, source, features) matches Some(pool) && pool.fallback
                    == raw.fallback@
            }
            &&& source matches PoolSource::Names(names) ==> {
                &&& pool_of(id, source, features) matches Some(pool) && pool.fallback
                    == "minecraft:empty"@ && pool.elements.len() == names@.len() && (0 <= k
                    < names@.len() ==> {
                    let element = pool.elements[k];
                    &&& element.weight == 1
                    &&& element.projection == JigsawProjection::TerrainMatching <==> holds_text(
                        id,
                        "streets"@,
                    )
                    &&& element.kind == (KindModel::Single {
                        template: names@[k]@,
                        processors: None,
                        legacy: false,
                    })
                })
            }
        },
{
}

/// A structure starts at the corner of its chunk, as its settings say; without settings it
/// starts at sea level, reaches eighty blocks, fills blocks with water and keeps no distance
/// from the top and bottom of the world.
pub proof fn law_structures_start_as_set(
    settings: Option<&StructureSettings>,
    chunk_x: i32,
    chunk_z: i32,
    sea_level: i32,
)
    requires
        fits(chunk_x * 16),
        fits(chunk_z * 16),
    ensures
        ({
            let start = request_of(settings, chunk_x, chunk_z, sea_level);
            &&& start.start_pos.x == 16 * chunk_x
            &&& start.start_pos.z == 16 * chunk_z
            &&& start.dimension_padding.top == start.dimension_padding.bottom
            &&& settings is None ==> {
                &&& start.start_pos.y == sea_level
                &&& !start.project_start_to_heightmap
                &&& start.max_distance == 80
                &&& start.liquid_settings == LiquidSettings::ApplyWaterlog
                &&& start.dimension_padding.top == 0
            }
            &&& settings matches Some(s) ==> {
                &&& start.project_start_to_heightmap == s.project_start_to_heightmap
                &&& s.start_height matches Some(y) ==> start.start_pos.y == y
                &&& s.start_height is None && i16::MIN <= sea_level <= i16::MAX
                    ==> start.start_pos.y == sea_level
                &&& s.max_distance_from_center matches Some(d) ==> start.max_distance == d
                &&& s.max_distance_from_center is None ==> start.max_distance == 80
                &&& s.dimension_padding matches Some(p) ==> start.dimension_padding.top == p
                &&& s.dimension_padding is None ==> start.dimension_padding.top == 0
                &&& start.liquid_settings == LiquidSettings::IgnoreWaterlogDone <==> (
                s.liquid_settings matches Some(text) && text@ == "ignore_waterlogging"@)
            }
        }),
{
}

/// A joining block is what its data and its orientation say; what they do not say is empty, zero
/// or rollable, and a block without an orientation faces north with its top up.
pub proof fn law_joining_blocks_say_what_they_join(
    block: JigsawBlock,
    pos: BlockPos,
    palette: PaletteEntry,
    data: Seq<(Seq<char>, super::template::NbtModel)>,
)
    requires
        block.is_from(pos, palette, data),
    ensures
        block.pos == pos,
        text_of(data, "name"@) matches Some(s) ==> block.name@ == s,
        text_of(data, "target"@) matches Some(s) ==> block.target@ == s,
        text_of(data, "pool"@) matches Some(s) ==> block.pool@ == s,
        text_of(data, "final_state"@) matches Some(s) ==> block.final_state@ == s,
        text_of(data, "name"@) is None ==> block.name@.len() == 0,
        text_of(data, "target"@) is None ==> block.target@.len() == 0,
        text_of(data, "pool"@) is None ==> block.pool@.len() == 0,
        text_of(data, "final_state"@) is None ==> block.final_state@.len() == 0,
        text_of(data, "joint"@) == Some("aligned"@) <==> block.joint == JigsawJointType::Aligned,
        int_of(data, "selection_priority"@) matches Some(n) ==> block.selection_priority == n,
        int_of(data, "placement_priority"@) matches Some(n) ==> block.placement_priority == n,
        int_of(data, "selection_priority"@) is None ==> block.selection_priority == 0,
        int_of(data, "placement_priority"@) is None ==> block.placement_priority == 0,
        property_of(palette.properties@, "orientation"@, 0) is None ==> block.facing
            == BlockDirection::North && block.up == BlockDirection::Up,
        property_of(palette.properties@, "orientation"@, 0) matches Some(s) ==> block.facing
            == direction_or(front_part(s), BlockDirection::North) && block.up == direction_or(
            top_part(s),
            BlockDirection::Up,
        ),
{
    reveal_strlit("aligned");
    reveal_strlit("north_up");
    reveal_strlit("north");
    reveal_strlit("up");
    let front = "north"@;
    let top = "up"@;
    assert("north_up"@ =~= front + seq!['_'] + top);
    assert(!front.contains('_'));
    assert(!top.contains('_'));
    law_orientations_are_split_at_the_underscore(front, top);
    law_directions_have_their_names(front, BlockDirection::North);
    law_directions_have_their_names(top, BlockDirection::Up);
}

/// The elements of two lists of a pool file one behind the other are those of the first and then
/// those of the second.
pub proof fn law_listed_elements_are_read_in_order(
    a: Seq<RawPoolElement>,
    b: Seq<RawPoolElement>,
    features: Seq<Entry>,
)
    ensures
        raw_kinds(a + b, (a + b).len(), features) == raw_kinds(a, a.len(), features) + raw_kinds(
            b,
            b.len(),
            features,
        ),
        b.len() == 1 ==> raw_kinds(b, 1, features) == match raw_kind(b[0], features) {
            Some((kind, _)) => seq![kind],
            None => seq![],
        },
{
    lemma_raw_kinds_in_order(a, b, b.len(), features);
    reveal_with_fuel(raw_kinds, 2);
}

proof fn lemma_raw_kinds_prefix(
    a: Seq<RawPoolElement>,
    b: Seq<RawPoolElement>,
    n: nat,
    features: Seq<Entry>,
)
    requires
        n <= a.len(),
    ensures
        raw_kinds(a + b, n, features) == raw_kinds(a, n, features),
    decreases n,
{
    if n > 0 {
        lemma_raw_kinds_prefix(a, b, (n - 1) as nat, features);
        assert((a + b)[n - 1] == a[n - 1]);
    }
}

proof fn lemma_raw_kinds_in_order(
    a: Seq<RawPoolElement>,
    b: Seq<RawPoolElement>,
    n: nat,
    features: Seq<Entry>,
)
    requires
        n <= b.len(),
    ensures
        raw_kinds(a + b, a.len() + n, features) == raw_kinds(a, a.len(), features) + raw_kinds(
            b,
            n,
            features,
        ),
    decreases n,
{
    if n == 0 {
        lemma_raw_kinds_prefix(a, b, a.len(), features);
        assert(raw_kinds(a, a.len(), features) + raw_kinds(b, 0, features) =~= raw_kinds(
            a,
            a.len(),
            features,
        ));
    } else {
        lemma_raw_kinds_in_order(a, b, (n - 1) as nat, features);
        assert((a + b)[a.len() + n - 1] == b[n - 1]);
        assert((a.len() + n - 1) as nat == a.len() + (n - 1) as nat);
        assert(raw_kinds(a + b, a.len() + n, features) =~= raw_kinds(a, a.len(), features)
            + raw_kinds(b, n, features));
    }
}

/// What an element is taken for is what it holds: its weight, its projection, and its kind with
/// its own template, processors and age.
pub proof fn law_elements_are_what_they_hold(element: PoolElement)
    ensures
        element@.weight == element.weight,
        element@.projection == element.projection,
        element.kind is Empty <==> element@.kind is Empty,
        element.kind is List <==> element@.kind is List,
        element.kind matches PoolElementKind::Feature(id) ==> element@.kind == KindModel::Feature(
            id,
        ),
        element.kind matches PoolElementKind::Single { template, processors, legacy }
            ==> element@.kind == (KindModel::Single {
            template: template@,
            processors: match processors {
                ProcessorListRef::Named(name) => Some(name@),
                ProcessorListRef::Empty => None,
            },
            legacy,
        }),
{
}

} // verus!
