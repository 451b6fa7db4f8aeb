//! Walking the directive: converting each referenced field, all or nothing, and
//! rewriting the record or annotating its description with the first failure.
use vstd::prelude::*;
use vstd::string::*;
use crate::lunar::{lunar_date_of, outcome_view, parse_ttdl_lunar_date, solar_date_of, to_ttdl_solar_date_string};
use crate::message::{
    collections_unique, map_entries, optional_fields, pointers_of, pointers_view,
    shared_name, ConversionPointer, PointerView, PolishedTtdlPluginMessage, RecordError,
    TTDL_LUNAR_CALENDAR_TAG_KEY,
};
use crate::record::{
    fields_of, groups_of, groups_view, lemma_entry_in_fields, position_of, Entry, FieldMap,
    FieldView, MessageView, TtdlPluginMessage,
};

verus! {

/// The name under which failures are reported in a description.
pub const TTDL_LUNAR_CALENDAR_PLUGIN_NAME: &'static str = "ttdl-lunar-calendar";

/// Why the directive could not be carried out, each with the reference's text.
#[derive(Debug)]
pub enum ConversionError {
    /// The reference came earlier in the directive too.
    Duplicated(String),
    /// No field of that name is in the collection it points at.
    NotFound(String),
    /// The field's value is not a lunar date written `YYYY-MM-DD`.
    UnexpectedFormat(String),
    /// The lunar calendar has no such date; with the converter's reason.
    UnexpectedValue(String, String),
}

/// What a `ConversionError` holds, as character sequences.
pub enum ConversionFailure {
    Duplicated(Seq<char>),
    NotFound(Seq<char>),
    UnexpectedFormat(Seq<char>),
    UnexpectedValue(Seq<char>, Seq<char>),
}

impl View for ConversionError {
    type V = ConversionFailure;

    open spec fn view(&self) -> ConversionFailure {
        match self {
            ConversionError::Duplicated(e) => ConversionFailure::Duplicated(e@),
            ConversionError::NotFound(e) => ConversionFailure::NotFound(e@),
            ConversionError::UnexpectedFormat(e) => ConversionFailure::UnexpectedFormat(e@),
            ConversionError::UnexpectedValue(e, m) => ConversionFailure::UnexpectedValue(e@, m@),
        }
    }
}

/// The fields `fs` once the outcome of converting field `i` is known.
pub open spec fn settled(
    fs: Seq<FieldView>,
    i: int,
    expression: Seq<char>,
    outcome: Result<Seq<char>, Seq<char>>,
) -> Result<Seq<FieldView>, ConversionFailure> {
    match outcome {
        Ok(solar) => Ok(fs.update(i, (fs[i].0, solar, fs[i].2))),
        Err(reason) => Err(ConversionFailure::UnexpectedValue(expression, reason)),
    }
}

/// The fields `fs` once the field named `name` is converted, or why it cannot be.
pub open spec fn converted_field(fs: Seq<FieldView>, expression: Seq<char>, name: Seq<char>) -> Result<
    Seq<FieldView>,
    ConversionFailure,
> {
    match position_of(fs, name) {
        None => Err(ConversionFailure::NotFound(expression)),
        Some(i) => match lunar_date_of(fs[i].1) {
            None => Err(ConversionFailure::UnexpectedFormat(expression)),
            Some(d) => settled(fs, i, expression, solar_date_of(d.year, d.month, d.day)),
        },
    }
}

/// Both collections once the references `pointers` are carried out in order,
/// `seen` holding the texts of the references already carried out; or the first
/// failure.
pub open spec fn converted(
    special: Seq<FieldView>,
    optional: Option<Seq<FieldView>>,
    pointers: Seq<PointerView>,
    seen: Seq<Seq<char>>,
) -> Result<(Seq<FieldView>, Option<Seq<FieldView>>), ConversionFailure>
    decreases pointers.len(),
{
    if pointers.len() == 0 {
        Ok((special, optional))
    } else {
        let p = pointers[0];
        let rest = pointers.drop_first();
        if seen.contains(p.1) {
            Err(ConversionFailure::Duplicated(p.1))
        } else if p.0 {
            match converted_field(special, p.1, p.2) {
                Ok(s) => converted(s, optional, rest, seen.push(p.1)),
                Err(f) => Err(f),
            }
        } else {
            match optional {
                None => Err(ConversionFailure::NotFound(p.1)),
                Some(o) => match converted_field(o, p.1, p.2) {
                    Ok(o2) => converted(special, Some(o2), rest, seen.push(p.1)),
                    Err(f) => Err(f),
                },
            }
        }
    }
}

/// The human-readable text of a failure.
pub open spec fn failure_text(f: ConversionFailure) -> Seq<char> {
    match f {
        ConversionFailure::Duplicated(e) => "duplicated \""@ + e + "\""@,
        ConversionFailure::NotFound(e) => "not found \""@ + e + "\""@,
        ConversionFailure::UnexpectedFormat(e) => "unexpected format for \""@ + e + "\""@,
        ConversionFailure::UnexpectedValue(e, m) => "unexpected value for \""@ + e + "\": "@ + m,
    }
}

/// A description with a failure reported in front of it.
pub open spec fn annotated(f: ConversionFailure, description: Seq<char>) -> Seq<char> {
    "[ERR("@ + TTDL_LUNAR_CALENDAR_PLUGIN_NAME@ + ") "@ + failure_text(f) + "] "@ + description
}

impl ConversionError {
    /// The human-readable text of the failure.
    pub fn message(&self) -> (r: String)
        ensures
            r@ == failure_text(self@),
    {
        match self {
            ConversionError::Duplicated(e) => {
                let mut s = String::from_str("duplicated \"");
                s.append(e.as_str());
                s.append("\"");
                s
            },
            ConversionError::NotFound(e) => {
                let mut s = String::from_str("not found \"");
                s.append(e.as_str());
                s.append("\"");
                s
            },
            ConversionError::UnexpectedFormat(e) => {
                let mut s = String::from_str("unexpected format for \"");
                s.append(e.as_str());
                s.append("\"");
                s
            },
            ConversionError::UnexpectedValue(e, m) => {
                let mut s = String::from_str("unexpected value for \"");
                s.append(e.as_str());
                s.append("\": ");
                s.append(m.as_str());
                s
            },
        }
    }
}

/// Puts `[ERR(ttdl-lunar-calendar) <failure>] ` in front of a description.
pub fn annotate(description: &String, error: &ConversionError) -> (r: String)
    ensures
        r@ == annotated(error@, description@),
{
    let mut s = String::from_str("[ERR(");
    s.append(TTDL_LUNAR_CALENDAR_PLUGIN_NAME);
    s.append(") ");
    let text = error.message();
    s.append(text.as_str());
    s.append("] ");
    s.append(description.as_str());
    s
}

/// Stores the outcome of converting field `position`: its new value, or the
/// failure naming `expression` with the converter's reason.
pub fn settle(
    fields: &mut FieldMap,
    position: usize,
    expression: &String,
    outcome: Result<String, String>,
) -> (r: Result<(), ConversionError>)
    requires
        old(fields).wf(),
        position < old(fields).fields.len(),
    ensures
        final(fields).wf(),
        final(fields).groups == old(fields).groups,
        final(fields).fields.len() == old(fields).fields.len(),
        match settled(old(fields).entries(), position as int, expression@, outcome_view(outcome)) {
            Ok(fs) => r is Ok && final(fields).entries() == fs,
            Err(f) => r matches Err(e) && e@ == f && final(fields).entries() == old(fields).entries(),
        },
{
    match outcome {
        Ok(solar) => {
            let ghost before = fields.entries();
            fields.fields[position].value = solar;
            assert(fields.entries() =~= before.update(
                position as int,
                (before[position as int].0, solar@, before[position as int].2),
            ));
            Ok(())
        },
        Err(reason) => Err(ConversionError::UnexpectedValue(expression.clone(), reason)),
    }
}

/// Converts the lunar date in the field named `name` to a solar date in place.
pub fn convert_field(fields: &mut FieldMap, expression: &String, name: &String) -> (r: Result<
    (),
    ConversionError,
>)
    requires
        old(fields).wf(),
    ensures
        final(fields).wf(),
        final(fields).groups == old(fields).groups,
        final(fields).fields.len() == old(fields).fields.len(),
        match converted_field(old(fields).entries(), expression@, name@) {
            Ok(fs) => r is Ok && final(fields).entries() == fs,
            Err(f) => r matches Err(e) && e@ == f && final(fields).entries() == old(fields).entries(),
        },
{
    let i = match fields.position(name) {
        Some(i) => i,
        None => return Err(ConversionError::NotFound(expression.clone())),
    };
    let source = match parse_ttdl_lunar_date(fields.fields[i].value.as_str()) {
        Some(d) => d,
        None => return Err(ConversionError::UnexpectedFormat(expression.clone())),
    };
    let outcome = to_ttdl_solar_date_string(source);
    settle(fields, i, expression, outcome)
}

fn contains_text(items: &Vec<String>, s: &String) -> (r: bool)
    ensures
        r == items@.map_values(|x: String| x@).contains(s@),
{
    let ghost iv = items@.map_values(|x: String| x@);
    let mut i: usize = 0;
    while i < items.len()
        invariant
            i <= items.len(),
            iv == items@.map_values(|x: String| x@),
            forall|q: int| 0 <= q < i ==> iv[q] != s@,
        decreases items.len() - i,
    {
        if items[i] == *s {
            assert(iv[i as int] == s@);
            return true;
        }
        i = i + 1;
    }
    false
}

pub open spec fn map_groups(o: Option<FieldMap>) -> Option<usize> {
    match o {
        Some(m) => Some(m.groups),
        None => None,
    }
}

/// Carries out the references in order on both collections; on the first
/// failure nothing is kept and the failure is returned.
pub fn apply(special: FieldMap, optional: Option<FieldMap>, pointers: &Vec<ConversionPointer>) -> (r:
    Result<(FieldMap, Option<FieldMap>), ConversionError>)
    requires
        special.wf(),
        optional matches Some(o) ==> o.wf(),
    ensures
        match converted(special.entries(), map_entries(optional), pointers_view(pointers@), seq![]) {
            Ok((s, o)) => r matches Ok((rs, ro)) && rs.entries() == s && map_entries(ro) == o
                && rs.groups == special.groups && map_groups(ro) == map_groups(optional),
            Err(f) => r matches Err(e) && e@ == f,
        },
{
    let ghost pv = pointers_view(pointers@);
    let ghost goal = converted(special.entries(), map_entries(optional), pv, seq![]);
    let ghost groups = special.groups;
    let ghost optional_groups = map_groups(optional);
    let mut fields = special;
    let mut extra = optional;
    let mut history: Vec<String> = Vec::new();
    let mut k: usize = 0;
    assert(pv.skip(0) =~= pv);
    assert(history@.map_values(|x: String| x@) =~= Seq::<Seq<char>>::empty());
    while k < pointers.len()
        invariant
            k <= pointers.len(),
            pv == pointers_view(pointers@),
            fields.wf(),
            extra matches Some(o) ==> o.wf(),
            fields.groups == groups,
            map_groups(extra) == optional_groups,
            goal == converted(special.entries(), map_entries(optional), pv, seq![]),
            groups == special.groups,
            optional_groups == map_groups(optional),
            goal == converted(
                fields.entries(),
                map_entries(extra),
                pv.skip(k as int),
                history@.map_values(|x: String| x@),
            ),
        decreases pointers.len() - k,
    {
        let p = &pointers[k];
        let ghost seen = history@.map_values(|x: String| x@);
        proof {
            assert(pv.skip(k as int)[0] == p@);
            assert(pv.skip(k as int).drop_first() =~= pv.skip(k + 1));
        }
        let (expression, name, in_special) = match p {
            ConversionPointer::SpecialTags(e, n) => (e, n, true),
            ConversionPointer::Optional(e, n) => (e, n, false),
        };
        if contains_text(&history, expression) {
            return Err(ConversionError::Duplicated(expression.clone()));
        }
        if in_special {
            match convert_field(&mut fields, expression, name) {
                Ok(()) => {},
                Err(e) => return Err(e),
            }
        } else {
            match extra {
                None => return Err(ConversionError::NotFound(expression.clone())),
                Some(mut o) => {
                    let res = convert_field(&mut o, expression, name);
                    extra = Some(o);
                    match res {
                        Ok(()) => {},
                        Err(e) => return Err(e),
                    }
                },
            }
        }
        history.push(expression.clone());
        assert(history@.map_values(|x: String| x@) =~= seen.push(expression@));
        k = k + 1;
    }
    Ok((fields, extra))
}

/// The record names the directive among its special tags.
pub open spec fn has_directive(m: MessageView) -> bool {
    exists|g: int, k: int|
        0 <= g < m.special_tags.len() && 0 <= k < m.special_tags[g].len()
            && #[trigger] m.special_tags[g][k].0 == TTDL_LUNAR_CALENDAR_TAG_KEY@
}

/// The directive's value, for a record that has it.
pub open spec fn directive_of(m: MessageView) -> Seq<char> {
    let fs = fields_of(m.special_tags);
    fs[position_of(fs, TTDL_LUNAR_CALENDAR_TAG_KEY@)->Some_0].1
}

/// What the directive turns a record (that has it, with no name repeated within
/// a collection) into: every referenced field converted in place; or, on the
/// first failure, the record unchanged but for the failure reported in front of
/// its description.
pub open spec fn rewritten(m: MessageView) -> MessageView {
    match converted(fields_of(m.special_tags), optional_fields(m), pointers_of(directive_of(m)), seq![]) {
        Ok((s, o)) => MessageView {
            description: m.description,
            optional: match (o, m.optional) {
                (Some(o2), Some(mo)) => Some(groups_of(o2, mo.len())),
                _ => None,
            },
            special_tags: groups_of(s, m.special_tags.len()),
        },
        Err(f) => MessageView {
            description: annotated(f, m.description),
            optional: m.optional,
            special_tags: m.special_tags,
        },
    }
}

/// What running gives for a record that it accepts.
pub open spec fn run_outcome(m: MessageView) -> MessageView {
    if has_directive(m) {
        rewritten(m)
    } else {
        m
    }
}

/// A record without the directive comes back as it is, so running again on
/// what came back gives the same record once more.
pub proof fn lemma_no_directive_idempotent(m: MessageView)
    requires
        !has_directive(m),
    ensures
        run_outcome(m) == m,
        run_outcome(run_outcome(m)) == run_outcome(m),
{
}

fn find_directive(groups: &Vec<Vec<Entry>>) -> (r: bool)
    ensures
        r == exists|g: int, k: int|
            0 <= g < groups_view(groups@).len() && 0 <= k < groups_view(groups@)[g].len()
                && #[trigger] groups_view(groups@)[g][k].0 == TTDL_LUNAR_CALENDAR_TAG_KEY@,
{
    let ghost gv = groups_view(groups@);
    let key = String::from_str(TTDL_LUNAR_CALENDAR_TAG_KEY);
    let mut g: usize = 0;
    while g < groups.len()
        invariant
            g <= groups.len(),
            gv == groups_view(groups@),
            key@ == TTDL_LUNAR_CALENDAR_TAG_KEY@,
            forall|a: int, b: int|
                0 <= a < g && 0 <= b < gv[a].len() ==> #[trigger] gv[a][b].0 != key@,
        decreases groups.len() - g,
    {
        let group = &groups[g];
        assert(gv[g as int] == group@.map_values(|e: Entry| e@));
        let mut k: usize = 0;
        while k < group.len()
            invariant
                g < groups.len(),
                k <= group.len(),
                gv == groups_view(groups@),
                *group == groups@[g as int],
                gv[g as int] == group@.map_values(|e: Entry| e@),
                key@ == TTDL_LUNAR_CALENDAR_TAG_KEY@,
                forall|a: int, b: int|
                    0 <= a < g && 0 <= b < gv[a].len() ==> #[trigger] gv[a][b].0 != key@,
                forall|b: int| 0 <= b < k ==> #[trigger] gv[g as int][b].0 != key@,
            decreases group.len() - k,
        {
            if group[k].name == key {
                assert(gv[g as int][k as int].0 == key@);
                return true;
            }
            k = k + 1;
        }
        g = g + 1;
    }
    false
}

/// Rewrites a record as its `!lunar-calendar` directive asks. A record without
/// the directive comes back as it is; one whose collection repeats a name is
/// refused; otherwise every referenced field is converted, or the record comes
/// back unchanged with the first failure reported in its description.
pub fn run(message: TtdlPluginMessage) -> (r: Result<TtdlPluginMessage, RecordError>)
    ensures
        !has_directive(message@) ==> r == Ok::<TtdlPluginMessage, RecordError>(message),
        r matches Ok(out) ==> out@ == run_outcome(message@),
        has_directive(message@) ==> (r is Ok <==> collections_unique(message@)),
        has_directive(message@) && collections_unique(message@) ==> (r matches Ok(out) && out@
            == rewritten(message@)),
        r matches Err(RecordError::DuplicateSpecialTag(n)) ==> shared_name(
            fields_of(message@.special_tags),
            n@,
        ),
        r matches Err(RecordError::DuplicateOptional(n)) ==> {
            &&& message@.optional matches Some(o)
            &&& shared_name(fields_of(o), n@)
        },
{
    if !find_directive(&message.special_tags) {
        return Ok(message);
    }
    let polished = match PolishedTtdlPluginMessage::normalize(&message) {
        Ok(p) => p,
        Err(e) => return Err(e),
    };
    proof {
        let gv = message@.special_tags;
        let (g, k) = choose|g: int, k: int|
            0 <= g < gv.len() && 0 <= k < gv[g].len() && #[trigger] gv[g][k].0
                == TTDL_LUNAR_CALENDAR_TAG_KEY@;
        lemma_entry_in_fields(gv, g, k);
        let fs = fields_of(gv);
        let i = choose|i: int| 0 <= i < fs.len() && #[trigger] fs[i] == (gv[g][k].0, gv[g][k].1, g as nat);
        assert(fs[i].0 == TTDL_LUNAR_CALENDAR_TAG_KEY@);
    }
    let pointers = polished.parse_plugin_value();
    let PolishedTtdlPluginMessage { description, optional, special_tags } = polished;
    match apply(special_tags, optional, &pointers) {
        Ok((special_tags, optional)) => {
            let converted = PolishedTtdlPluginMessage { description, optional, special_tags };
            let out = converted.denormalize();
            assert(out@ == rewritten(message@));
            Ok(out)
        },
        Err(e) => {
            let mut message = message;
            message.description = annotate(&message.description, &e);
            Ok(message)
        },
    }
}

} // verus!
