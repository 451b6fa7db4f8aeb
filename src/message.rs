//! The normalized record and the directive that it carries.
use vstd::prelude::*;
use vstd::string::*;
use crate::record::{
    fields_of, groups_of, lemma_round_trip, names_unique, position_of, FieldMap, FieldView,
    MessageView, TtdlPluginMessage,
};
use crate::text::{split_on, split_spec};

verus! {

/// The name of the special tag that holds the directive.
pub const TTDL_LUNAR_CALENDAR_TAG_KEY: &'static str = "!lunar-calendar";

/// Separates the references of a directive.
pub const TTDL_LUNAR_CALENDAR_TAG_SEPARATOR: char = ',';

/// Marks a reference to a special tag; a reference without it names an optional field.
pub const SPECIAL_TAG_MARKER: char = '#';

/// A reference of the directive: where it looks (`true` for the special tags,
/// `false` for the optional fields), its text as written, and the name it looks up.
pub type PointerView = (bool, Seq<char>, Seq<char>);

/// One reference of the directive, with its text as written and the name it looks up.
#[derive(Debug)]
pub enum ConversionPointer {
    Optional(String, String),
    SpecialTags(String, String),
}

impl View for ConversionPointer {
    type V = PointerView;

    open spec fn view(&self) -> PointerView {
        match self {
            ConversionPointer::Optional(e, n) => (false, e@, n@),
            ConversionPointer::SpecialTags(e, n) => (true, e@, n@),
        }
    }
}

/// The reference that the text `e` writes.
pub open spec fn pointer_of(e: Seq<char>) -> PointerView {
    if e.len() > 0 && e[0] == SPECIAL_TAG_MARKER {
        (true, e, e.drop_first())
    } else {
        (false, e, e)
    }
}

/// The references written by the non-empty pieces among `pieces`, in order.
pub open spec fn pointers_of_pieces(pieces: Seq<Seq<char>>) -> Seq<PointerView>
    decreases pieces.len(),
{
    if pieces.len() == 0 {
        Seq::empty()
    } else {
        let rest = pointers_of_pieces(pieces.drop_last());
        if pieces.last().len() > 0 {
            rest.push(pointer_of(pieces.last()))
        } else {
            rest
        }
    }
}

/// The references of the directive `d`: its non-empty comma-separated pieces.
pub open spec fn pointers_of(d: Seq<char>) -> Seq<PointerView> {
    pointers_of_pieces(split_spec(d, TTDL_LUNAR_CALENDAR_TAG_SEPARATOR))
}

pub open spec fn pointers_view(ps: Seq<ConversionPointer>) -> Seq<PointerView> {
    ps.map_values(|p: ConversionPointer| p@)
}

/// Splits a directive into its references; empty pieces are skipped and no
/// whitespace is trimmed.
pub fn parse_directive(value: &str) -> (r: Vec<ConversionPointer>)
    ensures
        pointers_view(r@) == pointers_of(value@),
{
    let pieces = split_on(value, TTDL_LUNAR_CALENDAR_TAG_SEPARATOR);
    let ghost pv = pieces@.map_values(|p: String| p@);
    let mut out: Vec<ConversionPointer> = Vec::new();
    let mut k: usize = 0;
    assert(pv.take(0) =~= Seq::<Seq<char>>::empty());
    assert(pointers_view(out@) =~= pointers_of_pieces(pv.take(0)));
    while k < pieces.len()
        invariant
            k <= pieces.len(),
            pv == pieces@.map_values(|p: String| p@),
            pointers_view(out@) == pointers_of_pieces(pv.take(k as int)),
        decreases pieces.len() - k,
    {
        let piece = &pieces[k];
        let ghost before = pointers_view(out@);
        assert(pv.take(k + 1).drop_last() =~= pv.take(k as int));
        assert(pv.take(k + 1).last() == piece@);
        let n = piece.as_str().unicode_len();
        if n > 0 {
            let first = piece.as_str().get_char(0);
            if first == SPECIAL_TAG_MARKER {
                let name = String::from_str(piece.as_str().substring_char(1, n));
                assert(name@ =~= piece@.drop_first());
                out.push(ConversionPointer::SpecialTags(piece.clone(), name));
            } else {
                out.push(ConversionPointer::Optional(piece.clone(), piece.clone()));
            }
            assert(pointers_view(out@) =~= before.push(pointer_of(piece@)));
        }
        k = k + 1;
    }
    assert(pv.take(pieces.len() as int) =~= pv);
    out
}

/// Why a record cannot be normalized: two fields of one collection share a name.
#[derive(Debug)]
pub enum RecordError {
    DuplicateSpecialTag(String),
    DuplicateOptional(String),
}

/// Two of the fields `fs` are named `name`.
pub open spec fn shared_name(fs: Seq<FieldView>, name: Seq<char>) -> bool {
    exists|i: int, j: int| 0 <= i < j < fs.len() && fs[i].0 == name && fs[j].0 == name
}

/// The fields of the optional collection, if it is there.
pub open spec fn optional_fields(m: MessageView) -> Option<Seq<FieldView>> {
    match m.optional {
        Some(o) => Some(fields_of(o)),
        None => None,
    }
}

/// Neither collection has two fields of one name.
pub open spec fn collections_unique(m: MessageView) -> bool {
    &&& names_unique(fields_of(m.special_tags))
    &&& (m.optional matches Some(o) ==> names_unique(fields_of(o)))
}

pub open spec fn map_entries(o: Option<FieldMap>) -> Option<Seq<FieldView>> {
    match o {
        Some(m) => Some(m.entries()),
        None => None,
    }
}

/// Normalizing a record and rebuilding it gives the record back: each
/// collection's groups in their original order, each entry in its group.
pub proof fn lemma_normalize_round_trip(m: MessageView)
    ensures
        (MessageView {
            description: m.description,
            optional: match m.optional {
                Some(o) => Some(groups_of(fields_of(o), o.len())),
                None => None,
            },
            special_tags: groups_of(fields_of(m.special_tags), m.special_tags.len()),
        }) == m,
{
    lemma_round_trip(m.special_tags);
    if let Some(o) = m.optional {
        lemma_round_trip(o);
    }
}

/// A task record with each collection normalized.
#[derive(Debug)]
pub struct PolishedTtdlPluginMessage {
    pub description: String,
    pub optional: Option<FieldMap>,
    pub special_tags: FieldMap,
}

impl PolishedTtdlPluginMessage {
    pub open spec fn wf(&self) -> bool {
        &&& self.special_tags.wf()
        &&& (self.optional matches Some(o) ==> o.wf())
    }

    /// The record view that denormalizing gives.
    pub open spec fn message_view(&self) -> MessageView {
        MessageView {
            description: self.description@,
            optional: match self.optional {
                Some(o) => Some(groups_of(o.entries(), o.groups as nat)),
                None => None,
            },
            special_tags: groups_of(self.special_tags.entries(), self.special_tags.groups as nat),
        }
    }

    /// Normalizes both collections of a record; fails on a name that two
    /// fields of one collection share, the special tags checked first.
    pub fn normalize(message: &TtdlPluginMessage) -> (r: Result<Self, RecordError>)
        ensures
            r is Ok <==> collections_unique(message@),
            r matches Ok(p) ==> {
                &&& p.wf()
                &&& p.description@ == message.description@
                &&& p.special_tags.entries() == fields_of(message@.special_tags)
                &&& p.special_tags.groups == message.special_tags.len()
                &&& map_entries(p.optional) == optional_fields(message@)
                &&& (message.optional matches Some(o) ==> p.optional matches Some(po)
                    && po.groups == o.len())
            },
            r matches Err(RecordError::DuplicateSpecialTag(n)) ==> shared_name(
                fields_of(message@.special_tags),
                n@,
            ),
            r matches Err(RecordError::DuplicateOptional(n)) ==> {
                &&& names_unique(fields_of(message@.special_tags))
                &&& message@.optional matches Some(o)
                &&& shared_name(fields_of(o), n@)
            },
    {
        let special_tags = match FieldMap::from_groups(&message.special_tags) {
            Ok(m) => m,
            Err(name) => return Err(RecordError::DuplicateSpecialTag(name)),
        };
        let optional = match &message.optional {
            Some(groups) => match FieldMap::from_groups(groups) {
                Ok(m) => Some(m),
                Err(name) => return Err(RecordError::DuplicateOptional(name)),
            },
            None => None,
        };
        Ok(PolishedTtdlPluginMessage {
            description: message.description.clone(),
            optional,
            special_tags,
        })
    }

    /// Rebuilds the record: each collection's groups in their original order.
    pub fn denormalize(self) -> (r: TtdlPluginMessage)
        ensures
            r@ == self.message_view(),
    {
        let special_tags = self.special_tags.to_groups();
        let optional = match &self.optional {
            Some(o) => Some(o.to_groups()),
            None => None,
        };
        TtdlPluginMessage { description: self.description, optional, special_tags }
    }

    /// The value of the special tag named `key`.
    pub fn get_special_tag_value(&self, key: &str) -> (r: Option<String>)
        requires
            self.wf(),
        ensures
            match position_of(self.special_tags.entries(), key@) {
                Some(i) => r matches Some(v) && v@ == self.special_tags.entries()[i].1,
                None => r is None,
            },
    {
        let key = String::from_str(key);
        match self.special_tags.position(&key) {
            Some(i) => Some(self.special_tags.fields[i].value.clone()),
            None => None,
        }
    }

    /// The references of the record's directive.
    pub fn parse_plugin_value(&self) -> (r: Vec<ConversionPointer>)
        requires
            self.wf(),
            position_of(self.special_tags.entries(), TTDL_LUNAR_CALENDAR_TAG_KEY@) is Some,
        ensures
            pointers_view(r@) == pointers_of(
                self.special_tags.entries()[position_of(
                    self.special_tags.entries(),
                    TTDL_LUNAR_CALENDAR_TAG_KEY@,
                )->Some_0].1,
            ),
    {
        match self.get_special_tag_value(TTDL_LUNAR_CALENDAR_TAG_KEY) {
            Some(value) => parse_directive(value.as_str()),
            None => Vec::new(),
        }
    }
}

} // verus!
