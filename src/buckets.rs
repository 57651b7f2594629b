//! The CRUD bucket classifier: a precedence rank and a kind for each
//! operation, from the shape of its URL template and its method.
use vstd::prelude::*;
use crate::amos::{find_operation_in, find_operation_spec, Operation, OperationMetaData, OperationV};
use crate::http::HTTPMethod;
use crate::text::{ends_with, ends_with_char, split, split_spec, starts_with, starts_with_char, str_eq};

verus! {

#[derive(Debug, Clone, Copy, PartialEq, Eq, Structural)]
pub enum BucketKind {
    Create,
    Read,
    Update,
    Delete,
}

#[derive(Debug, Clone)]
pub struct BucketItem {
    pub precedence: u8,
    pub kind: BucketKind,
    pub name: String,
    pub url: String,
    pub method: HTTPMethod,
}

/// The buckets of a list of operations: one item per classified operation,
/// and an index from each precedence to the positions of its items.
#[derive(Debug, Clone)]
pub struct Buckets {
    pub items: Vec<BucketItem>,
    pub index: Vec<(u8, Vec<usize>)>,
}

/// How many `/`-separated pieces of `url` start with `{`.
pub open spec fn count_placeholders(pieces: Seq<Seq<char>>) -> nat
    decreases pieces.len(),
{
    if pieces.len() == 0 {
        0
    } else {
        count_placeholders(pieces.drop_last()) + if starts_with_char(pieces.last(), '{') {
            1nat
        } else {
            0nat
        }
    }
}

pub open spec fn placeholders(url: Seq<char>) -> nat {
    count_placeholders(split_spec(url, '/'))
}

/// The precedence and kind of an operation with URL template `url` and
/// method `m`; `None` for an unrecognised method.
pub open spec fn classify(url: Seq<char>, m: HTTPMethod) -> Option<(int, BucketKind)> {
    let k = placeholders(url) as int;
    let closed = ends_with_char(url, '}');
    match m {
        HTTPMethod::GET => if k > 0 && !closed {
            Some((k + 1, BucketKind::Read))
        } else {
            Some((k, BucketKind::Read))
        },
        HTTPMethod::DELETE => Some((k + 2, BucketKind::Delete)),
        HTTPMethod::POST => if k > 0 && !closed {
            Some((k + 1, BucketKind::Update))
        } else {
            Some((k, BucketKind::Create))
        },
        HTTPMethod::PUT => if k > 0 && !closed {
            Some((k + 1, BucketKind::Update))
        } else {
            Some((k, BucketKind::Update))
        },
        HTTPMethod::Unsupported => None,
    }
}

/// A precedence as stored, saturating at `u8::MAX`.
pub open spec fn stored_precedence(p: int) -> u8 {
    if p > 255 {
        255
    } else {
        p as u8
    }
}

pub struct BucketItemV {
    pub precedence: u8,
    pub kind: BucketKind,
    pub name: Seq<char>,
    pub url: Seq<char>,
    pub method: HTTPMethod,
}

impl View for BucketItem {
    type V = BucketItemV;

    open spec fn view(&self) -> BucketItemV {
        BucketItemV {
            precedence: self.precedence,
            kind: self.kind,
            name: self.name@,
            url: self.url@,
            method: self.method,
        }
    }
}

/// The bucket of one operation, if it has recognised HTTP metadata.
pub open spec fn bucket_of(op: Operation) -> Option<BucketItemV> {
    match op.meta_data {
        Some(OperationMetaData::HTTP { url, method }) => match classify(url@, method) {
            Some((p, kind)) => Some(BucketItemV {
                precedence: stored_precedence(p),
                kind,
                name: op.info.name@,
                url: url@,
                method,
            }),
            None => None,
        },
        None => None,
    }
}

/// The buckets of the operations, in order.
pub open spec fn items_spec(ops: Seq<Operation>) -> Seq<BucketItemV>
    decreases ops.len(),
{
    if ops.len() == 0 {
        Seq::empty()
    } else {
        match bucket_of(ops.last()) {
            Some(b) => items_spec(ops.drop_last()).push(b),
            None => items_spec(ops.drop_last()),
        }
    }
}

/// How many operations have recognised HTTP metadata.
pub open spec fn classified_count(ops: Seq<Operation>) -> nat
    decreases ops.len(),
{
    if ops.len() == 0 {
        0
    } else {
        classified_count(ops.drop_last()) + if bucket_of(ops.last()) is Some {
            1nat
        } else {
            0nat
        }
    }
}

pub open spec fn item_views(v: Seq<BucketItem>) -> Seq<BucketItemV> {
    v.map_values(|b: BucketItem| b@)
}

/// The positions of the items with precedence `p`, in order.
pub open spec fn positions_with(items: Seq<BucketItemV>, p: u8) -> Seq<usize>
    decreases items.len(),
{
    if items.len() == 0 {
        Seq::empty()
    } else if items.last().precedence == p {
        positions_with(items.drop_last(), p).push((items.len() - 1) as usize)
    } else {
        positions_with(items.drop_last(), p)
    }
}

/// The index is keyed by distinct precedences, holds every precedence that
/// occurs and no other, and maps each to the (non-empty, increasing)
/// positions of its items.
pub open spec fn index_correct(items: Seq<BucketItemV>, index: Seq<(u8, Seq<usize>)>) -> bool {
    &&& forall|a: int, b: int| 0 <= a < b < index.len() ==> (#[trigger] index[a]).0 != (#[trigger] index[b]).0
    &&& forall|a: int| 0 <= a < index.len() ==> (#[trigger] index[a]).1 == positions_with(items, index[a].0)
    &&& forall|a: int| 0 <= a < index.len() ==> (#[trigger] index[a]).1.len() > 0
    &&& forall|i: int| 0 <= i < items.len() ==> exists|a: int| 0 <= a < index.len() && (#[trigger] index[a]).0 == (#[trigger] items[i]).precedence
}

pub open spec fn index_view(v: Seq<(u8, Vec<usize>)>) -> Seq<(u8, Seq<usize>)> {
    v.map_values(|e: (u8, Vec<usize>)| (e.0, e.1@))
}

fn count_placeholders_exec(url: &str) -> (r: usize)
    ensures
        r as nat == placeholders(url@),
{
    let pieces = split(url, '/');
    let ghost pv = pieces@.map_values(|p: String| p@);
    let mut n: usize = 0;
    let mut i: usize = 0;
    while i < pieces.len()
        invariant
            pv == pieces@.map_values(|p: String| p@),
            i <= pieces@.len(),
            n as nat == count_placeholders(pv.subrange(0, i as int)),
            n <= i,
        decreases pieces@.len() - i,
    {
        proof {
            let t = pv.subrange(0, i + 1);
            assert(t.drop_last() =~= pv.subrange(0, i as int));
            assert(t.last() == pieces@[i as int]@);
        }
        if starts_with(pieces[i].as_str(), '{') {
            n = n + 1;
        }
        i = i + 1;
    }
    proof {
        assert(pv.subrange(0, pv.len() as int) =~= pv);
    }
    n
}

fn saturate_plus(k: usize, d: usize) -> (r: u8)
    requires
        d <= 2,
    ensures
        r == stored_precedence(k + d),
{
    if k > 255 {
        255
    } else if k + d > 255 {
        255
    } else {
        (k + d) as u8
    }
}

proof fn lemma_positions_prefix(items: Seq<BucketItemV>, p: u8, x: BucketItemV)
    ensures
        positions_with(items.push(x), p) == if x.precedence == p {
            positions_with(items, p).push(items.len() as usize)
        } else {
            positions_with(items, p)
        },
{
    assert(items.push(x).drop_last() =~= items);
}

/// Adds item position `pos` (with precedence `p`) to the index.
fn index_add(index: &mut Vec<(u8, Vec<usize>)>, p: u8, pos: usize, Ghost(items): Ghost<Seq<BucketItemV>>, Ghost(x): Ghost<BucketItemV>)
    requires
        index_correct(items, index_view(old(index)@)),
        x.precedence == p,
        pos == items.len(),
    ensures
        index_correct(items.push(x), index_view(final(index)@)),
{
    let ghost iv = index_view(index@);
    let ghost next = items.push(x);
    proof {
        assert forall|a: int| 0 <= a < iv.len() && iv[a].0 != p implies positions_with(next, iv[a].0) == positions_with(items, iv[a].0) by {
            lemma_positions_prefix(items, iv[a].0, x);
        }
        lemma_positions_prefix(items, p, x);
    }
    let mut i: usize = 0;
    while i < index.len()
        invariant
            iv == index_view(index@),
            iv == index_view(old(index)@),
            next == items.push(x),
            index_correct(items, iv),
            x.precedence == p,
            pos == items.len(),
            forall|a: int| 0 <= a < iv.len() && iv[a].0 != p ==> positions_with(next, (#[trigger] iv[a]).0) == positions_with(items, iv[a].0),
            positions_with(next, p) == positions_with(items, p).push(pos),
            i <= index@.len(),
            forall|a: int| 0 <= a < i ==> (#[trigger] iv[a]).0 != p,
        decreases index@.len() - i,
    {
        proof {
            assert(iv[i as int] == (index@[i as int].0, index@[i as int].1@));
        }
        if index[i].0 == p {
            let mut entry = index.remove(i);
            entry.1.push(pos);
            index.insert(i, entry);
            proof {
                let nv = index_view(index@);
                assert(nv =~= iv.update(i as int, (p, iv[i as int].1.push(pos))));
                assert forall|k: int| 0 <= k < next.len() implies exists|a: int| 0 <= a < nv.len() && (#[trigger] nv[a]).0 == (#[trigger] next[k]).precedence by {
                    if k < items.len() {
                        assert(next[k] == items[k]);
                        let a = choose|a: int| 0 <= a < iv.len() && (#[trigger] iv[a]).0 == items[k].precedence;
                        assert(nv[a].0 == iv[a].0);
                    } else {
                        assert(nv[i as int].0 == p);
                    }
                }
                assert forall|a: int| 0 <= a < nv.len() implies (#[trigger] nv[a]).1 == positions_with(next, nv[a].0) by {
                    if a != i {
                        assert(nv[a] == iv[a]);
                    }
                }
            }
            return;
        }
        i = i + 1;
    }
    let mut fresh: Vec<usize> = Vec::new();
    fresh.push(pos);
    proof {
        assert(fresh@ =~= seq![pos]);
        assert forall|k: int| 0 <= k < items.len() implies (#[trigger] items[k]).precedence != p by {
            let a = choose|a: int| 0 <= a < iv.len() && (#[trigger] iv[a]).0 == items[k].precedence;
            assert(iv[a].0 != p);
        }
    }
    index.push((p, fresh));
    proof {
        let nv = index_view(index@);
        assert(nv =~= iv.push((p, seq![pos])));
        lemma_positions_absent(items, p);
        assert(positions_with(items, p) =~= Seq::<usize>::empty());
        assert(positions_with(next, p) =~= seq![pos]);
        assert forall|k: int| 0 <= k < next.len() implies exists|a: int| 0 <= a < nv.len() && (#[trigger] nv[a]).0 == (#[trigger] next[k]).precedence by {
            if k < items.len() {
                assert(next[k] == items[k]);
                let a = choose|a: int| 0 <= a < iv.len() && (#[trigger] iv[a]).0 == items[k].precedence;
                assert(nv[a].0 == iv[a].0);
            } else {
                assert(nv[iv.len() as int].0 == p);
            }
        }
        assert forall|a: int| 0 <= a < nv.len() implies (#[trigger] nv[a]).1 == positions_with(next, nv[a].0) by {
            if a < iv.len() {
                assert(nv[a] == iv[a]);
            }
        }
    }
}

proof fn lemma_positions_absent(items: Seq<BucketItemV>, p: u8)
    requires
        forall|i: int| 0 <= i < items.len() ==> (#[trigger] items[i]).precedence != p,
    ensures
        positions_with(items, p).len() == 0,
    decreases items.len(),
{
    if items.len() > 0 {
        assert forall|i: int| 0 <= i < items.drop_last().len() implies (#[trigger] items.drop_last()[i]).precedence != p by {
            assert(items.drop_last()[i] == items[i]);
        }
        lemma_positions_absent(items.drop_last(), p);
        assert(items.last() == items[items.len() - 1]);
    }
}

/// The items of `items` of kind `kind` with precedence in `[lo, hi]`, in order.
pub open spec fn select_spec(items: Seq<BucketItemV>, kind: BucketKind, lo: u8, hi: u8) -> Seq<BucketItemV>
    decreases items.len(),
{
    if items.len() == 0 {
        Seq::empty()
    } else {
        let prev = select_spec(items.drop_last(), kind, lo, hi);
        let it = items.last();
        if lo <= it.precedence <= hi && it.kind == kind {
            prev.push(it)
        } else {
            prev
        }
    }
}

pub open spec fn ref_views(v: Seq<&BucketItem>) -> Seq<BucketItemV> {
    v.map_values(|b: &BucketItem| b@)
}

/// The slots of the state-identity template for a sequence of `len`
/// operations, as (kind, lowest, highest) precedence; `None` for an empty slot.
pub open spec fn identity_template(len: u8, update_first: bool) -> Seq<Option<(BucketKind, u8, u8)>> {
    let c = BucketKind::Create;
    let d = BucketKind::Delete;
    let u = BucketKind::Update;
    if len == 2 {
        seq![Some((c, 1u8, 1u8)), Some((d, 2u8, 3u8)), None, None, None]
    } else if len == 3 {
        if update_first {
            seq![Some((c, 1u8, 1u8)), Some((u, 2u8, 2u8)), Some((d, 2u8, 4u8)), None, None]
        } else {
            seq![Some((c, 1u8, 1u8)), Some((c, 2u8, 2u8)), Some((d, 2u8, 4u8)), None, None]
        }
    } else if len == 4 {
        if update_first {
            seq![Some((c, 1u8, 1u8)), Some((c, 2u8, 2u8)), Some((u, 2u8, 3u8)), Some((d, 2u8, 4u8)), None]
        } else {
            seq![Some((c, 1u8, 1u8)), Some((c, 2u8, 2u8)), Some((u, 2u8, 3u8)), Some((d, 4u8, 4u8)), None]
        }
    } else if update_first {
        seq![Some((c, 1u8, 1u8)), Some((c, 2u8, 2u8)), Some((c, 2u8, 2u8)), Some((u, 2u8, 4u8)), Some((d, 2u8, 5u8))]
    } else {
        seq![Some((c, 1u8, 1u8)), Some((c, 2u8, 2u8)), Some((c, 2u8, 3u8)), Some((c, 3u8, 3u8)), Some((d, 4u8, 5u8))]
    }
}

/// The slots of a template filled from the items.
pub open spec fn template_slots(items: Seq<BucketItemV>, t: Seq<Option<(BucketKind, u8, u8)>>) -> Seq<Seq<BucketItemV>> {
    Seq::new(t.len(), |i: int| match t[i] {
        Some((k, lo, hi)) => select_spec(items, k, lo, hi),
        None => Seq::empty(),
    })
}

impl Buckets {
    /// Classifies each operation with recognised HTTP metadata.
    pub fn new(ops: &[Operation]) -> (r: Self)
        ensures
            item_views(r.items@) == items_spec(ops@),
            index_correct(item_views(r.items@), index_view(r.index@)),
    {
        let mut items: Vec<BucketItem> = Vec::new();
        let mut index: Vec<(u8, Vec<usize>)> = Vec::new();
        let mut i: usize = 0;
        proof {
            assert(item_views(items@) =~= Seq::<BucketItemV>::empty());
            assert(index_view(index@) =~= Seq::<(u8, Seq<usize>)>::empty());
            assert(ops@.subrange(0, 0) =~= Seq::<Operation>::empty());
        }
        while i < ops.len()
            invariant
                i <= ops@.len(),
                item_views(items@) == items_spec(ops@.subrange(0, i as int)),
                index_correct(item_views(items@), index_view(index@)),
            decreases ops@.len() - i,
        {
            let op = &ops[i];
            proof {
                let t = ops@.subrange(0, i + 1);
                assert(t.drop_last() =~= ops@.subrange(0, i as int));
                assert(t.last() == *op);
            }
            if let Some(OperationMetaData::HTTP { url, method }) = &op.meta_data {
                let k = count_placeholders_exec(url.as_str());
                let closed = ends_with(url.as_str(), '}');
                let class: Option<(u8, BucketKind)> = match method {
                    HTTPMethod::GET => if k > 0 && !closed { Some((saturate_plus(k, 1), BucketKind::Read)) } else { Some((saturate_plus(k, 0), BucketKind::Read)) },
                    HTTPMethod::DELETE => Some((saturate_plus(k, 2), BucketKind::Delete)),
                    HTTPMethod::POST => if k > 0 && !closed { Some((saturate_plus(k, 1), BucketKind::Update)) } else { Some((saturate_plus(k, 0), BucketKind::Create)) },
                    HTTPMethod::PUT => if k > 0 && !closed { Some((saturate_plus(k, 1), BucketKind::Update)) } else { Some((saturate_plus(k, 0), BucketKind::Update)) },
                    HTTPMethod::Unsupported => None,
                };
                if let Some((prec, kind)) = class {
                    let item = BucketItem {
                        precedence: prec,
                        kind,
                        name: op.info.name.clone(),
                        url: url.clone(),
                        method: *method,
                    };
                    proof {
                        assert(bucket_of(*op) == Some(item@));
                    }
                    let ghost before = item_views(items@);
                    index_add(&mut index, item.precedence, items.len(), Ghost(before), Ghost(item@));
                    items.push(item);
                    proof {
                        assert(item_views(items@) =~= before.push(item@));
                    }
                }
            }
            i = i + 1;
        }
        proof {
            assert(ops@.subrange(0, ops@.len() as int) =~= ops@);
        }
        Buckets { items, index }
    }

    /// The first item of the operation with the same name, if any.
    pub fn find(&self, op: &Operation) -> (r: Option<&BucketItem>)
        ensures
            match r {
                Some(b) => exists|i: int| 0 <= i < self.items@.len() && self.items@[i] == *b && b.name@ == op.info.name@
                    && forall|j: int| 0 <= j < i ==> (#[trigger] self.items@[j]).name@ != op.info.name@,
                None => forall|i: int| 0 <= i < self.items@.len() ==> (#[trigger] self.items@[i]).name@ != op.info.name@,
            },
    {
        let mut i: usize = 0;
        while i < self.items.len()
            invariant
                i <= self.items@.len(),
                forall|j: int| 0 <= j < i ==> (#[trigger] self.items@[j]).name@ != op.info.name@,
            decreases self.items@.len() - i,
        {
            if str_eq(self.items[i].name.as_str(), op.info.name.as_str()) {
                return Some(&self.items[i]);
            }
            i = i + 1;
        }
        None
    }

    fn select(&self, kind: BucketKind, p_min: u8, p_max: u8) -> (r: Vec<&BucketItem>)
        ensures
            ref_views(r@) == select_spec(item_views(self.items@), kind, p_min, p_max),
    {
        let ghost all = item_views(self.items@);
        let mut out: Vec<&BucketItem> = Vec::new();
        let mut i: usize = 0;
        proof {
            assert(ref_views(out@) =~= Seq::<BucketItemV>::empty());
            assert(all.subrange(0, 0) =~= Seq::<BucketItemV>::empty());
        }
        while i < self.items.len()
            invariant
                all == item_views(self.items@),
                i <= self.items@.len(),
                ref_views(out@) == select_spec(all.subrange(0, i as int), kind, p_min, p_max),
            decreases self.items@.len() - i,
        {
            let it = &self.items[i];
            proof {
                let t = all.subrange(0, i + 1);
                assert(t.drop_last() =~= all.subrange(0, i as int));
                assert(t.last() == it@);
            }
            if it.precedence >= p_min && it.precedence <= p_max && it.kind == kind {
                let ghost prev = ref_views(out@);
                out.push(it);
                proof {
                    assert(ref_views(out@) =~= prev.push(it@));
                }
            }
            i = i + 1;
        }
        proof {
            assert(all.subrange(0, all.len() as int) =~= all);
        }
        out
    }

    /// The create operations with precedence in `[p_min, p_max]`.
    pub fn find_create_operations_with_precedence(&self, p_min: u8, p_max: u8) -> (r: Vec<&BucketItem>)
        ensures
            ref_views(r@) == select_spec(item_views(self.items@), BucketKind::Create, p_min, p_max),
    {
        self.select(BucketKind::Create, p_min, p_max)
    }

    /// The delete operations with precedence in `[p_min, p_max]`.
    pub fn find_delete_operations_with_precedence(&self, p_min: u8, p_max: u8) -> (r: Vec<&BucketItem>)
        ensures
            ref_views(r@) == select_spec(item_views(self.items@), BucketKind::Delete, p_min, p_max),
    {
        self.select(BucketKind::Delete, p_min, p_max)
    }

    /// The read operations with precedence in `[p_min, p_max]`.
    pub fn find_read_operations_with_precedence(&self, p_min: u8, p_max: u8) -> (r: Vec<&BucketItem>)
        ensures
            ref_views(r@) == select_spec(item_views(self.items@), BucketKind::Read, p_min, p_max),
    {
        self.select(BucketKind::Read, p_min, p_max)
    }

    /// The update operations with precedence in `[p_min, p_max]`.
    pub fn find_update_operations_with_precedence(&self, p_min: u8, p_max: u8) -> (r: Vec<&BucketItem>)
        ensures
            ref_views(r@) == select_spec(item_views(self.items@), BucketKind::Update, p_min, p_max),
    {
        self.select(BucketKind::Update, p_min, p_max)
    }

    fn fill_template(&self, len: u8, update_first: bool) -> (r: Vec<Vec<&BucketItem>>)
        requires
            2 <= len <= 5,
        ensures
            r@.len() == 5,
            forall|i: int| 0 <= i < 5 ==> ref_views((#[trigger] r@[i])@) == template_slots(item_views(self.items@), identity_template(len, update_first))[i],
    {
        let c = BucketKind::Create;
        let d = BucketKind::Delete;
        let u = BucketKind::Update;
        let r = if len == 2 {
            vec![self.select(c, 1, 1), self.select(d, 2, 3), Vec::new(), Vec::new(), Vec::new()]
        } else if len == 3 {
            if update_first {
                vec![self.select(c, 1, 1), self.select(u, 2, 2), self.select(d, 2, 4), Vec::new(), Vec::new()]
            } else {
                vec![self.select(c, 1, 1), self.select(c, 2, 2), self.select(d, 2, 4), Vec::new(), Vec::new()]
            }
        } else if len == 4 {
            if update_first {
                vec![self.select(c, 1, 1), self.select(c, 2, 2), self.select(u, 2, 3), self.select(d, 2, 4), Vec::new()]
            } else {
                vec![self.select(c, 1, 1), self.select(c, 2, 2), self.select(u, 2, 3), self.select(d, 4, 4), Vec::new()]
            }
        } else if update_first {
            vec![self.select(c, 1, 1), self.select(c, 2, 2), self.select(c, 2, 2), self.select(u, 2, 4), self.select(d, 2, 5)]
        } else {
            vec![self.select(c, 1, 1), self.select(c, 2, 2), self.select(c, 2, 3), self.select(c, 3, 3), self.select(d, 4, 5)]
        };
        proof {
            assert forall|i: int| 0 <= i < 5 implies ref_views((#[trigger] r@[i])@) == template_slots(item_views(self.items@), identity_template(len, update_first))[i] by {
                let t = identity_template(len, update_first);
                if t[i] is None {
                    assert(ref_views(r@[i]@) =~= Seq::<BucketItemV>::empty());
                }
            }
        }
        r
    }

    /// The five slots of the state-identity choreography for a sequence of
    /// `bucket_len` operations (2 to 5): creates at rising depth, then a delete.
    pub fn bucketize_for_state_identity(&self, bucket_len: u8) -> (r: Vec<Vec<&BucketItem>>)
        requires
            2 <= bucket_len <= 5,
        ensures
            r@.len() == 5,
            forall|i: int| 0 <= i < 5 ==> ref_views((#[trigger] r@[i])@) == template_slots(item_views(self.items@), identity_template(bucket_len, false))[i],
    {
        self.fill_template(bucket_len, false)
    }
}

/// The state-identity choreography (see `Buckets::bucketize_for_state_identity`).
pub fn bucketize_for_state_identity_strategy(bucket: &Buckets, bucket_len: u8) -> (r: Vec<Vec<&BucketItem>>)
    requires
        2 <= bucket_len <= 5,
    ensures
        r@.len() == 5,
        forall|i: int| 0 <= i < 5 ==> ref_views((#[trigger] r@[i])@) == template_slots(item_views(bucket.items@), identity_template(bucket_len, false))[i],
{
    bucket.fill_template(bucket_len, false)
}

/// The "update-first" variant: updates take the place of creates in the
/// middle slots.
pub fn bucketize_for_state_identity_update_strategy(bucket: &Buckets, bucket_len: u8) -> (r: Vec<Vec<&BucketItem>>)
    requires
        2 <= bucket_len <= 5,
    ensures
        r@.len() == 5,
        forall|i: int| 0 <= i < 5 ==> ref_views((#[trigger] r@[i])@) == template_slots(item_views(bucket.items@), identity_template(bucket_len, true))[i],
{
    bucket.fill_template(bucket_len, true)
}

/// The operations named by the items of a slot, in order; an item whose
/// operation is not in `ops` contributes nothing.
pub open spec fn slot_operations(slot: Seq<BucketItemV>, ops: Seq<Operation>) -> Seq<OperationV>
    decreases slot.len(),
{
    if slot.len() == 0 {
        Seq::empty()
    } else {
        let prev = slot_operations(slot.drop_last(), ops);
        match find_operation_spec(ops, slot.last().name) {
            Some(o) => prev.push(o@),
            None => prev,
        }
    }
}

/// The operations a slot of the bucket-shaped generator draws from.
pub fn bucket_operations(slot: &Vec<&BucketItem>, operations: &Vec<Operation>) -> (r: Vec<Operation>)
    ensures
        r@.map_values(|o: Operation| o@) == slot_operations(ref_views(slot@), operations@),
{
    let ghost sv = ref_views(slot@);
    let mut out: Vec<Operation> = Vec::new();
    let mut i: usize = 0;
    proof {
        assert(sv.subrange(0, 0) =~= Seq::<BucketItemV>::empty());
        assert(out@.map_values(|o: Operation| o@) =~= Seq::<OperationV>::empty());
    }
    while i < slot.len()
        invariant
            sv == ref_views(slot@),
            i <= slot@.len(),
            out@.map_values(|o: Operation| o@) == slot_operations(sv.subrange(0, i as int), operations@),
        decreases slot@.len() - i,
    {
        proof {
            let t = sv.subrange(0, i + 1);
            assert(t.drop_last() =~= sv.subrange(0, i as int));
            assert(t.last() == slot@[i as int]@);
        }
        if let Some(o) = find_operation_in(operations, slot[i].name.as_str()) {
            let ghost prev = out@;
            out.push(o.deep_copy());
            proof {
                assert(out@.map_values(|o: Operation| o@) =~= prev.map_values(|o: Operation| o@).push(o@));
            }
        }
        i = i + 1;
    }
    proof {
        assert(sv.subrange(0, sv.len() as int) =~= sv);
    }
    out
}

/// The positions listed for a precedence are strictly increasing, in range,
/// and exactly those of the items with that precedence.
pub proof fn lemma_positions_increasing(items: Seq<BucketItemV>, p: u8)
    requires
        items.len() <= usize::MAX,
    ensures
        forall|a: int, b: int|
            0 <= a < b < positions_with(items, p).len() ==> (#[trigger] positions_with(items, p)[a]) < (#[trigger] positions_with(items, p)[b]),
        forall|a: int|
            0 <= a < positions_with(items, p).len() ==> (#[trigger] positions_with(items, p)[a]) < items.len()
                && items[positions_with(items, p)[a] as int].precedence == p,
    decreases items.len(),
{
    if items.len() > 0 {
        let pre = items.drop_last();
        lemma_positions_increasing(pre, p);
        let prev = positions_with(pre, p);
        let whole = positions_with(items, p);
        assert forall|a: int| 0 <= a < prev.len() implies items[prev[a] as int] == pre[prev[a] as int] by {}
        if items.last().precedence == p {
            assert(whole == prev.push((items.len() - 1) as usize));
            assert forall|a: int, b: int| 0 <= a < b < whole.len() implies (#[trigger] whole[a]) < (#[trigger] whole[b]) by {
                if b == whole.len() - 1 {
                    assert(whole[a] == prev[a]);
                } else {
                    assert(whole[a] == prev[a] && whole[b] == prev[b]);
                }
            }
            assert forall|a: int| 0 <= a < whole.len() implies (#[trigger] whole[a]) < items.len()
                && items[whole[a] as int].precedence == p by {
                if a < prev.len() {
                    assert(whole[a] == prev[a]);
                }
            }
        } else {
            assert(whole == prev);
        }
    }
}

/// For one operation with URL template `url` and `k` placeholders (at most
/// 255, the largest stored precedence), the buckets hold one item: a GET
/// with `k >= 1` and a URL ending with `}` is a read of precedence `k`, a
/// POST of that shape a create of precedence `k`; a DELETE (with `k + 2` at
/// most 255) a delete of precedence `k + 2`.
pub proof fn lemma_single_operation_precedence(op: Operation, url: String, method: HTTPMethod)
    requires
        op.meta_data == Some(OperationMetaData::HTTP { url, method }),
    ensures
        ({
            let k = placeholders(url@);
            let items = items_spec(seq![op]);
            &&& (method == HTTPMethod::GET && k >= 1 && k <= 255 && ends_with_char(url@, '}')) ==> items.len() == 1
                && items[0].precedence as nat == k && items[0].kind == BucketKind::Read
            &&& (method == HTTPMethod::POST && k >= 1 && k <= 255 && ends_with_char(url@, '}')) ==> items.len() == 1
                && items[0].precedence as nat == k && items[0].kind == BucketKind::Create
            &&& (method == HTTPMethod::DELETE && k + 2 <= 255) ==> items.len() == 1 && items[0].precedence as nat == k + 2
                && items[0].kind == BucketKind::Delete
        }),
{
    let s1 = seq![op];
    assert(s1.drop_last() =~= Seq::<Operation>::empty());
    assert(s1.last() == op);
    assert(items_spec(Seq::<Operation>::empty()).len() == 0);
    if let Some(b) = bucket_of(op) {
        assert(items_spec(s1) =~= seq![b]);
    }
}

/// Classification is total: the buckets hold exactly one item for each
/// operation with recognised HTTP metadata, in order, and none for the others.
pub proof fn lemma_one_bucket_per_operation(ops: Seq<Operation>)
    ensures
        items_spec(ops).len() == classified_count(ops),
    decreases ops.len(),
{
    if ops.len() > 0 {
        lemma_one_bucket_per_operation(ops.drop_last());
    }
}

/// With `k` placeholders and a URL that ends with `}`: a GET and a POST have
/// precedence `k`; a DELETE with `k` placeholders has precedence `k + 2`.
pub proof fn lemma_precedence_by_shape(url: Seq<char>)
    ensures
        ends_with_char(url, '}') ==> classify(url, HTTPMethod::GET) == Some((placeholders(url) as int, BucketKind::Read)),
        ends_with_char(url, '}') ==> classify(url, HTTPMethod::POST) == Some((placeholders(url) as int, BucketKind::Create)),
        classify(url, HTTPMethod::DELETE) == Some((placeholders(url) as int + 2, BucketKind::Delete)),
{
}

} // verus!
