//! The record catalog: the data the node shares, and the rules that govern
//! how records are created and published.
//!
//! A `Record` carries its text fields as byte strings: they travel over the
//! wire and through storage as bytes, and the core never interprets them.
//! The catalog itself is a plain vector owned by the storage collaborator;
//! the functions here compute the new catalog value for each command, and
//! their contracts pin down id assignment and the publish toggle exactly.

use vstd::prelude::*;

verus! {

/// One catalog entry.
#[derive(Debug)]
pub struct Record {
    pub id: u64,
    pub name: Vec<u8>,
    pub ingredients: Vec<u8>,
    pub instructions: Vec<u8>,
    pub public: bool,
}

/// The mathematical value of a `Record`: the same fields over `Seq<u8>`.
pub ghost struct RecordModel {
    pub id: u64,
    pub name: Seq<u8>,
    pub ingredients: Seq<u8>,
    pub instructions: Seq<u8>,
    pub public: bool,
}

impl View for Record {
    type V = RecordModel;

    open spec fn view(&self) -> RecordModel {
        RecordModel {
            id: self.id,
            name: self.name@,
            ingredients: self.ingredients@,
            instructions: self.instructions@,
            public: self.public,
        }
    }
}

impl DeepView for Record {
    type V = RecordModel;

    open spec fn deep_view(&self) -> RecordModel {
        self.view()
    }
}

/// The largest id present in a catalog, or `0` for an empty catalog.
pub open spec fn max_id(s: Seq<RecordModel>) -> u64
    decreases s.len(),
{
    if s.len() == 0 {
        0
    } else if s.last().id >= max_id(s.drop_last()) {
        s.last().id
    } else {
        max_id(s.drop_last())
    }
}

/// The id the next created record receives: one past the largest id in use,
/// or `0` when the catalog is empty.  Ids are never reused, because the core
/// never removes records.
pub open spec fn next_id_of(s: Seq<RecordModel>) -> int {
    if s.len() == 0 {
        0
    } else {
        max_id(s) + 1
    }
}

/// A new, still unpublished record built from the given fields.
pub open spec fn fresh_record(
    s: Seq<RecordModel>,
    name: Seq<u8>,
    ingredients: Seq<u8>,
    instructions: Seq<u8>,
) -> RecordModel {
    RecordModel {
        id: next_id_of(s) as u64,
        name,
        ingredients,
        instructions,
        public: false,
    }
}

impl Record {
    /// A copy of this record, equal to it at the model level.
    pub fn duplicate(&self) -> (c: Record)
        ensures
            c@ == self@,
    {
        Record {
            id: self.id,
            name: clone_bytes(&self.name),
            ingredients: clone_bytes(&self.ingredients),
            instructions: clone_bytes(&self.instructions),
            public: self.public,
        }
    }
}

/// A fresh vector holding the same bytes.
pub fn clone_bytes(v: &Vec<u8>) -> (c: Vec<u8>)
    ensures
        c@ == v@,
{
    let mut c: Vec<u8> = Vec::new();
    let mut i: usize = 0;
    while i < v.len()
        invariant
            i <= v.len(),
            c@ == v@.subrange(0, i as int),
        decreases v.len() - i,
    {
        c.push(v[i]);
        proof {
            assert(c@ =~= v@.subrange(0, i + 1 as int));
        }
        i += 1;
    }
    proof {
        assert(c@ =~= v@);
    }
    c
}

/// The largest id in the catalog, or `0` if it is empty.
pub fn current_max_id(catalog: &Vec<Record>) -> (m: u64)
    ensures
        m == max_id(catalog.deep_view()),
{
    let ghost cat = catalog.deep_view();
    let mut m: u64 = 0;
    let mut i: usize = 0;
    while i < catalog.len()
        invariant
            i <= catalog.len(),
            cat == catalog.deep_view(),
            cat.len() == catalog.len(),
            m == max_id(cat.subrange(0, i as int)),
        decreases catalog.len() - i,
    {
        proof {
            assert(cat.subrange(0, i + 1).drop_last() =~= cat.subrange(0, i as int));
            assert(cat.subrange(0, i + 1).last() == cat[i as int]);
            assert(cat[i as int] == catalog[i as int]@);
        }
        if catalog[i].id >= m {
            m = catalog[i].id;
        }
        i += 1;
    }
    proof {
        assert(cat.subrange(0, cat.len() as int) =~= cat);
    }
    m
}

/// Appends a new record built from the given fields, with `public == false`
/// and the next free id, and returns that id.  This is the whole effect of a
/// `create` command on the catalog.
pub fn create_record(
    catalog: &mut Vec<Record>,
    name: Vec<u8>,
    ingredients: Vec<u8>,
    instructions: Vec<u8>,
) -> (id: u64)
    requires
        max_id(old(catalog).deep_view()) < u64::MAX,
    ensures
        id == next_id_of(old(catalog).deep_view()),
        final(catalog).deep_view() == old(catalog).deep_view().push(
            fresh_record(old(catalog).deep_view(), name@, ingredients@, instructions@),
        ),
{
    let ghost before = catalog.deep_view();
    let m = current_max_id(catalog);
    let id: u64 = if catalog.len() == 0 {
        0
    } else {
        m + 1
    };
    catalog.push(Record { id, name, ingredients, instructions, public: false });
    proof {
        assert(catalog.deep_view() =~= before.push(
            fresh_record(before, name@, ingredients@, instructions@),
        ));
    }
    id
}

/// What one entry of the catalog becomes when id `id` is published.
pub open spec fn published_entry(r: RecordModel, id: u64) -> RecordModel {
    if r.id == id {
        RecordModel { public: true, ..r }
    } else {
        r
    }
}

/// Marks every record whose id matches as public and leaves the rest alone.
/// A `publish` for an id that is not in the catalog changes nothing; it is a
/// no-op, not an error.
pub fn publish_record(catalog: &mut Vec<Record>, id: u64)
    ensures
        final(catalog).deep_view() == old(catalog).deep_view().map_values(
            |r: RecordModel| published_entry(r, id),
        ),
{
    let ghost before = catalog.deep_view();
    let mut out: Vec<Record> = Vec::new();
    let mut i: usize = 0;
    while i < catalog.len()
        invariant
            i <= catalog.len(),
            before == catalog.deep_view(),
            before.len() == catalog.len(),
            out@.len() == i,
            forall|j: int| 0 <= j < i ==> out@[j]@ == published_entry(before[j], id),
        decreases catalog.len() - i,
    {
        let mut c = catalog[i].duplicate();
        if c.id == id {
            c.public = true;
        }
        proof {
            assert(before[i as int] == catalog[i as int]@);
            assert(c@ == published_entry(before[i as int], id));
        }
        out.push(c);
        i += 1;
    }
    proof {
        let f = |r: RecordModel| published_entry(r, id);
        assert forall|j: int| 0 <= j < before.len() implies out.deep_view()[j] == before.map_values(
            f,
        )[j] by {
            assert(out.deep_view()[j] == out@[j]@);
            assert(out@[j]@ == published_entry(before[j], id));
        }
        assert(out.deep_view() =~= before.map_values(f));
    }
    *catalog = out;
}

/// The publicly visible part of a catalog: the records marked public, in
/// catalog order.
pub open spec fn public_part(s: Seq<RecordModel>) -> Seq<RecordModel> {
    s.filter(|r: RecordModel| r.public)
}

/// One unfolding of `public_part` for a non-empty sequence.
proof fn lemma_public_part_step(s: Seq<RecordModel>)
    requires
        s.len() > 0,
    ensures
        s.last().public ==> public_part(s) == public_part(s.drop_last()).push(s.last()),
        !s.last().public ==> public_part(s) == public_part(s.drop_last()),
{
    reveal(Seq::filter);
}

/// The records a node is willing to show other peers: those marked public.
pub fn public_records(catalog: &Vec<Record>) -> (out: Vec<Record>)
    ensures
        out.deep_view() == public_part(catalog.deep_view()),
{
    let ghost cat = catalog.deep_view();
    let mut out: Vec<Record> = Vec::new();
    let mut i: usize = 0;
    while i < catalog.len()
        invariant
            i <= catalog.len(),
            cat == catalog.deep_view(),
            cat.len() == catalog.len(),
            out.deep_view() == public_part(cat.subrange(0, i as int)),
        decreases catalog.len() - i,
    {
        let ghost out0 = out.deep_view();
        let c = catalog[i].duplicate();
        let is_public = c.public;
        if is_public {
            out.push(c);
        }
        proof {
            let pre = cat.subrange(0, i as int);
            let s1 = cat.subrange(0, i + 1);
            assert(s1.drop_last() =~= pre);
            assert(s1.last() == cat[i as int]);
            assert(cat[i as int] == catalog[i as int]@);
            lemma_public_part_step(s1);
            if is_public {
                assert(out.deep_view() =~= out0.push(c@));
                assert(out.deep_view() =~= public_part(s1));
            } else {
                assert(out.deep_view() =~= public_part(s1));
            }
        }
        i += 1;
    }
    proof {
        assert(cat.subrange(0, cat.len() as int) =~= cat);
    }
    out
}

/// A catalog whose entries carry the ids `0, 1, 2, …` in order: the shape
/// every catalog has that was built by `create_record` alone, starting from
/// empty.
pub open spec fn ids_sequential(s: Seq<RecordModel>) -> bool {
    forall|i: int| 0 <= i < s.len() ==> (#[trigger] s[i].id) == i
}

/// In a catalog with sequential ids, the largest id is the last one.
proof fn lemma_max_id_sequential(s: Seq<RecordModel>)
    requires
        ids_sequential(s),
        s.len() > 0,
    ensures
        max_id(s) == s.len() - 1,
    decreases s.len(),
{
    if s.len() == 1 {
        assert(s.drop_last().len() == 0);
        assert(max_id(s.drop_last()) == 0);
        assert(s.last().id == 0);
    } else {
        assert forall|i: int| 0 <= i < s.drop_last().len() implies (#[trigger] s.drop_last()[i].id)
            == i by {
            assert(s.drop_last()[i] == s[i]);
        }
        lemma_max_id_sequential(s.drop_last());
        assert(s.last().id == s.len() - 1);
    }
}

/// Monotonic ids: however many records a catalog with sequential ids holds,
/// the next `create` is assigned the next index, and the catalog stays
/// sequential.  Applied at every step from the empty catalog, this says the
/// assigned ids are exactly `0, 1, 2, …` in creation order.
pub proof fn lemma_create_ids_monotonic(
    s: Seq<RecordModel>,
    name: Seq<u8>,
    ingredients: Seq<u8>,
    instructions: Seq<u8>,
)
    requires
        ids_sequential(s),
        s.len() < u64::MAX,
    ensures
        next_id_of(s) == s.len(),
        max_id(s) < u64::MAX,
        ids_sequential(s.push(fresh_record(s, name, ingredients, instructions))),
{
    if s.len() > 0 {
        lemma_max_id_sequential(s);
    }
    let t = s.push(fresh_record(s, name, ingredients, instructions));
    assert forall|i: int| 0 <= i < t.len() implies (#[trigger] t[i].id) == i by {
        if i < s.len() {
            assert(t[i] == s[i]);
        }
    }
}

/// Publishing never renumbers: a `publish` keeps every id (and every field
/// but the `public` flag) where it was, so interleaved publishes cannot
/// disturb the id sequence the creates build.
pub proof fn lemma_publish_keeps_ids(s: Seq<RecordModel>, id: u64)
    ensures
        s.map_values(|r: RecordModel| published_entry(r, id)).len() == s.len(),
        forall|i: int| 0 <= i < s.len() ==> (#[trigger] published_entry(s[i], id)).id == s[i].id,
        ids_sequential(s) ==> ids_sequential(
            s.map_values(|r: RecordModel| published_entry(r, id)),
        ),
{
}

/// Publishing an id that no record carries is a no-op: the catalog value is
/// unchanged, and nothing fails.
pub proof fn lemma_publish_unknown_id_is_noop(s: Seq<RecordModel>, id: u64)
    requires
        forall|i: int| 0 <= i < s.len() ==> (#[trigger] s[i].id) != id,
    ensures
        s.map_values(|r: RecordModel| published_entry(r, id)) == s,
{
    assert(s.map_values(|r: RecordModel| published_entry(r, id)) =~= s);
}

} // verus!
