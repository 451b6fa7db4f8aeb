//! Task records: as exchanged with the host (collections of name-value groups),
//! and normalized (one field per name, each remembering the group it came from).
use vstd::prelude::*;
use vstd::string::*;

verus! {

/// A name and a value.
pub type TagView = (Seq<char>, Seq<char>);

/// A name, a value and the position of the group that holds it.
pub type FieldView = (Seq<char>, Seq<char>, nat);

/// One name-value entry of a group.
#[derive(Debug, Clone, PartialEq, Eq)]
pub struct Entry {
    pub name: String,
    pub value: String,
}

impl View for Entry {
    type V = TagView;

    open spec fn view(&self) -> TagView {
        (self.name@, self.value@)
    }
}

impl Entry {
    pub fn new(name: &str, value: &str) -> (r: Entry)
        ensures
            r@ == (name@, value@),
    {
        Entry { name: String::from_str(name), value: String::from_str(value) }
    }
}

pub open spec fn group_view(g: Vec<Entry>) -> Seq<TagView> {
    g@.map_values(|e: Entry| e@)
}

pub open spec fn groups_view(gs: Seq<Vec<Entry>>) -> Seq<Seq<TagView>> {
    gs.map_values(|g: Vec<Entry>| group_view(g))
}

/// A task record as the host hands it over: a description, the special tags and,
/// if present, the optional fields, each an ordered list of groups of entries.
#[derive(Debug, Clone, PartialEq, Eq)]
pub struct TtdlPluginMessage {
    pub description: String,
    pub optional: Option<Vec<Vec<Entry>>>,
    pub special_tags: Vec<Vec<Entry>>,
}

/// What a record holds: its description and the name-value pairs of each group.
pub struct MessageView {
    pub description: Seq<char>,
    pub optional: Option<Seq<Seq<TagView>>>,
    pub special_tags: Seq<Seq<TagView>>,
}

impl View for TtdlPluginMessage {
    type V = MessageView;

    open spec fn view(&self) -> MessageView {
        MessageView {
            description: self.description@,
            optional: match self.optional {
                Some(o) => Some(groups_view(o@)),
                None => None,
            },
            special_tags: groups_view(self.special_tags@),
        }
    }
}

/// The entries of `group`, each marked with the group's position `g`.
pub open spec fn indexed(group: Seq<TagView>, g: nat) -> Seq<FieldView> {
    group.map_values(|t: TagView| (t.0, t.1, g))
}

/// The fields of a collection, in order, each marked with its group's position.
pub open spec fn fields_of(groups: Seq<Seq<TagView>>) -> Seq<FieldView>
    decreases groups.len(),
{
    if groups.len() == 0 {
        Seq::empty()
    } else {
        fields_of(groups.drop_last()) + indexed(groups.last(), (groups.len() - 1) as nat)
    }
}

/// No two fields share a name.
pub open spec fn names_unique(fs: Seq<FieldView>) -> bool {
    forall|i: int, j: int| 0 <= i < j < fs.len() ==> #[trigger] fs[i].0 != #[trigger] fs[j].0
}

/// The entries of the fields marked with group position `g`, in order.
pub open spec fn group_at(fs: Seq<FieldView>, g: nat) -> Seq<TagView>
    decreases fs.len(),
{
    if fs.len() == 0 {
        Seq::empty()
    } else {
        let rest = group_at(fs.drop_last(), g);
        if fs.last().2 == g {
            rest.push((fs.last().0, fs.last().1))
        } else {
            rest
        }
    }
}

/// The `count` groups that the fields `fs` are rebuilt into.
pub open spec fn groups_of(fs: Seq<FieldView>, count: nat) -> Seq<Seq<TagView>> {
    Seq::new(count, |g: int| group_at(fs, g as nat))
}

/// The position of the field named `name`, if there is one.
pub open spec fn position_of(fs: Seq<FieldView>, name: Seq<char>) -> Option<int> {
    if exists|i: int| 0 <= i < fs.len() && #[trigger] fs[i].0 == name {
        Some(choose|i: int| 0 <= i < fs.len() && #[trigger] fs[i].0 == name)
    } else {
        None
    }
}

pub(crate) proof fn lemma_fields_of_take(groups: Seq<Seq<TagView>>, g: int)
    requires
        0 <= g < groups.len(),
    ensures
        fields_of(groups.take(g + 1)) == fields_of(groups.take(g)) + indexed(groups[g], g as nat),
{
    assert(groups.take(g + 1).drop_last() =~= groups.take(g));
}

/// The fields of the first groups are the first fields.
pub(crate) proof fn lemma_fields_of_prefix(groups: Seq<Seq<TagView>>, g: int)
    requires
        0 <= g <= groups.len(),
    ensures
        fields_of(groups.take(g)).len() <= fields_of(groups).len(),
        forall|i: int|
            0 <= i < fields_of(groups.take(g)).len() ==> #[trigger] fields_of(groups.take(g))[i]
                == fields_of(groups)[i],
    decreases groups.len(),
{
    if g == groups.len() {
        assert(groups.take(g) =~= groups);
    } else {
        lemma_fields_of_prefix(groups.drop_last(), g);
        assert(groups.drop_last().take(g) =~= groups.take(g));
    }
}

proof fn lemma_fields_of_index_bound(groups: Seq<Seq<TagView>>)
    ensures
        forall|i: int| 0 <= i < fields_of(groups).len() ==> #[trigger] fields_of(groups)[i].2 < groups.len(),
    decreases groups.len(),
{
    if groups.len() > 0 {
        let init = groups.drop_last();
        let n = (groups.len() - 1) as nat;
        lemma_fields_of_index_bound(init);
        assert forall|i: int| 0 <= i < fields_of(groups).len() implies #[trigger] fields_of(groups)[i].2
            < groups.len() by {
            if i >= fields_of(init).len() {
                assert(fields_of(groups)[i] == indexed(groups.last(), n)[i - fields_of(init).len()]);
            } else {
                assert(fields_of(groups)[i] == fields_of(init)[i]);
            }
        }
    }
}

proof fn lemma_group_at_concat(a: Seq<FieldView>, b: Seq<FieldView>, g: nat)
    ensures
        group_at(a + b, g) == group_at(a, g) + group_at(b, g),
    decreases b.len(),
{
    if b.len() == 0 {
        assert(a + b =~= a);
        assert(group_at(a, g) + group_at(b, g) =~= group_at(a, g));
    } else {
        lemma_group_at_concat(a, b.drop_last(), g);
        assert((a + b).drop_last() =~= a + b.drop_last());
        assert(group_at(a, g) + group_at(b.drop_last(), g).push((b.last().0, b.last().1))
            =~= (group_at(a, g) + group_at(b.drop_last(), g)).push((b.last().0, b.last().1)));
    }
}

proof fn lemma_group_at_absent(fs: Seq<FieldView>, g: nat)
    requires
        forall|i: int| 0 <= i < fs.len() ==> #[trigger] fs[i].2 != g,
    ensures
        group_at(fs, g) == Seq::<TagView>::empty(),
    decreases fs.len(),
{
    if fs.len() > 0 {
        lemma_group_at_absent(fs.drop_last(), g);
    }
}

proof fn lemma_group_at_indexed(t: Seq<TagView>, i: nat, g: nat)
    ensures
        group_at(indexed(t, i), g) == (if i == g {
            t
        } else {
            Seq::<TagView>::empty()
        }),
    decreases t.len(),
{
    if t.len() > 0 {
        lemma_group_at_indexed(t.drop_last(), i, g);
        assert(indexed(t, i).drop_last() =~= indexed(t.drop_last(), i));
        if i == g {
            assert(t.drop_last().push(t.last()) =~= t);
        }
    } else {
        assert(t =~= Seq::<TagView>::empty());
    }
}

/// Each entry of a group is one of the fields, marked with its group's position.
pub(crate) proof fn lemma_entry_in_fields(groups: Seq<Seq<TagView>>, g: int, k: int)
    requires
        0 <= g < groups.len(),
        0 <= k < groups[g].len(),
    ensures
        exists|i: int|
            0 <= i < fields_of(groups).len() && #[trigger] fields_of(groups)[i] == (
                groups[g][k].0,
                groups[g][k].1,
                g as nat,
            ),
{
    lemma_fields_of_take(groups, g);
    lemma_fields_of_prefix(groups, g + 1);
    let i = fields_of(groups.take(g)).len() + k;
    assert(fields_of(groups.take(g + 1))[i] == indexed(groups[g], g as nat)[k]);
    assert(fields_of(groups)[i] == fields_of(groups.take(g + 1))[i]);
}

/// Rebuilding the groups from the fields read out of them gives the groups back,
/// each entry in its group and each group in its place.
pub proof fn lemma_round_trip(groups: Seq<Seq<TagView>>)
    ensures
        groups_of(fields_of(groups), groups.len()) == groups,
    decreases groups.len(),
{
    if groups.len() > 0 {
        let init = groups.drop_last();
        let n = (groups.len() - 1) as nat;
        lemma_round_trip(init);
        lemma_fields_of_index_bound(init);
        assert forall|g: int| 0 <= g < groups.len() implies #[trigger] group_at(fields_of(groups), g as nat)
            == groups[g] by {
            lemma_group_at_concat(fields_of(init), indexed(groups.last(), n), g as nat);
            lemma_group_at_indexed(groups.last(), n, g as nat);
            if g == n {
                lemma_group_at_absent(fields_of(init), g as nat);
                assert(Seq::<TagView>::empty() + groups.last() =~= groups.last());
            } else {
                assert(groups_of(fields_of(init), init.len())[g] == group_at(fields_of(init), g as nat));
                assert(group_at(fields_of(init), g as nat) + Seq::<TagView>::empty() =~= group_at(
                    fields_of(init),
                    g as nat,
                ));
            }
        }
    }
    assert(groups_of(fields_of(groups), groups.len()) =~= groups);
}

/// One field of a normalized collection.
#[derive(Debug, Clone)]
pub struct Field {
    pub name: String,
    pub value: String,
    pub index: usize,
}

impl View for Field {
    type V = FieldView;

    open spec fn view(&self) -> FieldView {
        (self.name@, self.value@, self.index as nat)
    }
}

/// A normalized collection: its fields in order, and how many groups it had.
#[derive(Debug, Clone)]
pub struct FieldMap {
    pub fields: Vec<Field>,
    pub groups: usize,
}

impl FieldMap {
    pub open spec fn entries(&self) -> Seq<FieldView> {
        self.fields@.map_values(|f: Field| f@)
    }

    pub open spec fn wf(&self) -> bool {
        names_unique(self.entries())
    }

    /// Normalizes a collection; fails with a name that two entries share.
    pub fn from_groups(groups: &Vec<Vec<Entry>>) -> (r: Result<FieldMap, String>)
        ensures
            r is Ok <==> names_unique(fields_of(groups_view(groups@))),
            r matches Ok(m) ==> m.entries() == fields_of(groups_view(groups@)) && m.groups
                == groups.len() && m.wf(),
            r matches Err(name) ==> exists|i: int, j: int|
                0 <= i < j < fields_of(groups_view(groups@)).len() && fields_of(
                    groups_view(groups@),
                )[i].0 == name@ && fields_of(groups_view(groups@))[j].0 == name@,
    {
        let ghost gv = groups_view(groups@);
        let mut fields: Vec<Field> = Vec::new();
        let mut g: usize = 0;
        assert(gv.take(0) =~= Seq::<Seq<TagView>>::empty());
        assert(fields@.map_values(|f: Field| f@) =~= fields_of(gv.take(0)));
        while g < groups.len()
            invariant
                g <= groups.len(),
                gv == groups_view(groups@),
                fields@.map_values(|f: Field| f@) == fields_of(gv.take(g as int)),
                names_unique(fields@.map_values(|f: Field| f@)),
            decreases groups.len() - g,
        {
            let group = &groups[g];
            assert(gv[g as int] == group_view(*group));
            let mut k: usize = 0;
            assert(indexed(gv[g as int], g as nat).take(0) =~= Seq::<FieldView>::empty());
            assert(fields_of(gv.take(g as int)) + Seq::<FieldView>::empty() =~= fields_of(
                gv.take(g as int),
            ));
            while k < group.len()
                invariant
                    g < groups.len(),
                    k <= group.len(),
                    gv == groups_view(groups@),
                    *group == groups@[g as int],
                    gv[g as int] == group_view(*group),
                    fields@.map_values(|f: Field| f@) == fields_of(gv.take(g as int)) + indexed(
                        gv[g as int],
                        g as nat,
                    ).take(k as int),
                    names_unique(fields@.map_values(|f: Field| f@)),
                decreases group.len() - k,
            {
                let entry = &group[k];
                let ghost before = fields@.map_values(|f: Field| f@);
                let ghost next = before.push((entry.name@, entry.value@, g as nat));
                proof {
                    assert(indexed(gv[g as int], g as nat).take(k + 1) =~= indexed(
                        gv[g as int],
                        g as nat,
                    ).take(k as int).push((entry.name@, entry.value@, g as nat)));
                    assert(next =~= fields_of(gv.take(g as int)) + indexed(
                        gv[g as int],
                        g as nat,
                    ).take(k + 1));
                }
                let mut j: usize = 0;
                while j < fields.len()
                    invariant
                        j <= fields.len(),
                        g < groups.len(),
                        k < group.len(),
                        gv == groups_view(groups@),
                        gv[g as int] == group_view(*group),
                        *entry == group@[k as int],
                        before == fields_of(gv.take(g as int)) + indexed(gv[g as int], g as nat).take(
                            k as int,
                        ),
                        next == before.push((entry.name@, entry.value@, g as nat)),
                        next == fields_of(gv.take(g as int)) + indexed(gv[g as int], g as nat).take(
                            k + 1,
                        ),
                        before == fields@.map_values(|f: Field| f@),
                        forall|q: int| 0 <= q < j ==> #[trigger] before[q].0 != entry.name@,
                    decreases fields.len() - j,
                {
                    if fields[j].name == entry.name {
                        proof {
                            lemma_fields_of_take(gv, g as int);
                            lemma_fields_of_prefix(gv, g + 1);
                            let whole = fields_of(gv);
                            let pre = fields_of(gv.take(g + 1));
                            assert(pre =~= fields_of(gv.take(g as int)) + indexed(
                                gv[g as int],
                                g as nat,
                            ).take(k + 1) + indexed(gv[g as int], g as nat).skip(k + 1));
                            assert(pre[j as int] == next[j as int]);
                            assert(pre[before.len() as int] == next[before.len() as int]);
                            assert(gv.take(groups.len() as int) =~= gv);
                            assert(whole[j as int].0 == entry.name@);
                            assert(whole[before.len() as int].0 == entry.name@);
                        }
                        return Err(entry.name.clone());
                    }
                    j = j + 1;
                }
                fields.push(Field { name: entry.name.clone(), value: entry.value.clone(), index: g });
                assert(fields@.map_values(|f: Field| f@) =~= next);
                k = k + 1;
            }
            proof {
                lemma_fields_of_take(gv, g as int);
                assert(indexed(gv[g as int], g as nat).take(group.len() as int) =~= indexed(
                    gv[g as int],
                    g as nat,
                ));
            }
            g = g + 1;
        }
        assert(gv.take(groups.len() as int) =~= gv);
        Ok(FieldMap { fields, groups: groups.len() })
    }

    /// Rebuilds the groups: group `g` holds the fields marked `g`, in order.
    pub fn to_groups(&self) -> (r: Vec<Vec<Entry>>)
        ensures
            groups_view(r@) == groups_of(self.entries(), self.groups as nat),
    {
        let ghost es = self.entries();
        let mut out: Vec<Vec<Entry>> = Vec::new();
        let mut g: usize = 0;
        while g < self.groups
            invariant
                g <= self.groups,
                es == self.entries(),
                groups_view(out@) =~= groups_of(es, g as nat),
            decreases self.groups - g,
        {
            let mut group: Vec<Entry> = Vec::new();
            let mut k: usize = 0;
            assert(es.take(0) =~= Seq::<FieldView>::empty());
            assert(group_view(group) =~= group_at(es.take(0), g as nat));
            while k < self.fields.len()
                invariant
                    k <= self.fields.len(),
                    es == self.entries(),
                    group_view(group) == group_at(es.take(k as int), g as nat),
                decreases self.fields.len() - k,
            {
                let field = &self.fields[k];
                assert(es.take(k + 1).drop_last() =~= es.take(k as int));
                assert(es.take(k + 1).last() == field@);
                if field.index == g {
                    let ghost before = group_view(group);
                    group.push(Entry { name: field.name.clone(), value: field.value.clone() });
                    assert(group_view(group) =~= before.push((field.name@, field.value@)));
                }
                k = k + 1;
            }
            assert(es.take(self.fields.len() as int) =~= es);
            let ghost before = groups_view(out@);
            out.push(group);
            assert(groups_view(out@) =~= before.push(group_at(es, g as nat)));
            g = g + 1;
        }
        out
    }

    /// The position of the field named `name`.
    pub fn position(&self, name: &String) -> (r: Option<usize>)
        requires
            self.wf(),
        ensures
            r matches Some(i) ==> position_of(self.entries(), name@) == Some(i as int),
            r is None <==> position_of(self.entries(), name@) is None,
    {
        let mut i: usize = 0;
        while i < self.fields.len()
            invariant
                i <= self.fields.len(),
                self.wf(),
                forall|q: int| 0 <= q < i ==> #[trigger] self.entries()[q].0 != name@,
            decreases self.fields.len() - i,
        {
            if self.fields[i].name == *name {
                proof {
                    let es = self.entries();
                    assert(es[i as int].0 == name@);
                    let c = choose|q: int| 0 <= q < es.len() && #[trigger] es[q].0 == name@;
                    assert(c == i) by {
                        if c < i {
                            assert(es[c].0 != es[i as int].0);
                        } else if c > i {
                            assert(es[i as int].0 != es[c].0);
                        }
                    }
                }
                return Some(i);
            }
            i = i + 1;
        }
        None
    }
}

} // verus!
