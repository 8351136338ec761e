//! Relation graphs: nodes with field rows, directed edges between them, and the
//! layered layout that places every node in a column (its layer) and a row.
//! Identifiers are the 128-bit values of the nodes' and edges' UUIDs.
use vstd::prelude::*;

use crate::text::{chars_eq, chars_of, push_text, text_eq};

verus! {

/// Structured field row rendered inside a relation graph node.
pub struct RelationGraphNodeField {
    pub ident: String,
    pub name: String,
    pub typ: String,
    pub highlighted: bool,
}

impl RelationGraphNodeField {
    /// A field row that is not highlighted.
    pub fn new<I: Into<String>, N: Into<String>, T: Into<String>>(ident: I, name: N, typ: T) -> (r:
        Self)
        ensures
            call_ensures(I::into, (ident,), r.ident),
            call_ensures(N::into, (name,), r.name),
            call_ensures(T::into, (typ,), r.typ),
            !r.highlighted,
    {
        RelationGraphNodeField { ident: ident.into(), name: name.into(), typ: typ.into(), highlighted: false }
    }

    /// Marks the field as visually highlighted.
    pub fn highlighted(self, highlighted: bool) -> (r: Self)
        ensures
            r.ident == self.ident,
            r.name == self.name,
            r.typ == self.typ,
            r.highlighted == highlighted,
    {
        RelationGraphNodeField { highlighted, ..self }
    }
}

/// Single graph node rendered as a card in the relation graph.
pub struct RelationGraphNode {
    pub id: u128,
    pub icon: String,
    pub name: String,
    pub description: String,
    pub loaded: bool,
    pub fields: Vec<RelationGraphNodeField>,
}

impl RelationGraphNode {
    /// A node without description, fields or loaded relations.
    pub fn new<I: Into<String>, N: Into<String>>(id: u128, icon: I, name: N) -> (r: Self)
        ensures
            r.id == id,
            call_ensures(I::into, (icon,), r.icon),
            call_ensures(N::into, (name,), r.name),
            r.description@ == Seq::<char>::empty(),
            !r.loaded,
            r.fields@.len() == 0,
    {
        RelationGraphNode {
            id,
            icon: icon.into(),
            name: name.into(),
            description: String::new(),
            loaded: false,
            fields: Vec::new(),
        }
    }

    /// Sets the longer text shown in the node's hover popup.
    pub fn description<D: Into<String>>(self, description: D) -> (r: Self)
        ensures
            r.id == self.id,
            r.icon == self.icon,
            r.name == self.name,
            call_ensures(D::into, (description,), r.description),
            r.loaded == self.loaded,
            r.fields == self.fields,
    {
        RelationGraphNode { description: description.into(), ..self }
    }

    /// Marks whether the node has loaded its adjacent relations.
    pub fn loaded(self, loaded: bool) -> (r: Self)
        ensures
            r.id == self.id,
            r.icon == self.icon,
            r.name == self.name,
            r.description == self.description,
            r.loaded == loaded,
            r.fields == self.fields,
    {
        RelationGraphNode { loaded, ..self }
    }

    /// Sets the field rows shown below the node header.
    pub fn fields(self, fields: Vec<RelationGraphNodeField>) -> (r: Self)
        ensures
            r.id == self.id,
            r.icon == self.icon,
            r.name == self.name,
            r.description == self.description,
            r.loaded == self.loaded,
            r.fields == fields,
    {
        RelationGraphNode { fields, ..self }
    }
}

/// Directed relation between a source and a target node.
pub struct RelationGraphEdge {
    pub id: u128,
    pub source: u128,
    pub source_ident: Option<String>,
    pub target: u128,
    pub target_ident: Option<String>,
    pub name: String,
}

impl RelationGraphEdge {
    /// An edge anchored at the node headers.
    pub fn new<N: Into<String>>(id: u128, source: u128, target: u128, name: N) -> (r: Self)
        ensures
            r.id == id,
            r.source == source,
            r.target == target,
            r.source_ident is None,
            r.target_ident is None,
            call_ensures(N::into, (name,), r.name),
    {
        RelationGraphEdge { id, source, source_ident: None, target, target_ident: None, name: name.into() }
    }

    /// Anchors the source side of the edge at the given source field.
    pub fn source_ident<S: Into<String>>(self, ident: S) -> (r: Self)
        ensures
            r.id == self.id,
            r.source == self.source,
            r.source_ident matches Some(i) && call_ensures(S::into, (ident,), i),
            r.target == self.target,
            r.target_ident == self.target_ident,
            r.name == self.name,
    {
        RelationGraphEdge { source_ident: Some(ident.into()), ..self }
    }

    /// Anchors the target side of the edge at the given target field.
    pub fn target_ident<S: Into<String>>(self, ident: S) -> (r: Self)
        ensures
            r.id == self.id,
            r.source == self.source,
            r.source_ident == self.source_ident,
            r.target == self.target,
            r.target_ident matches Some(i) && call_ensures(S::into, (ident,), i),
            r.name == self.name,
    {
        RelationGraphEdge { target_ident: Some(ident.into()), ..self }
    }
}

/// The lower-case hexadecimal digit for `d < 16`.
pub open spec fn hex_digit(d: nat) -> char {
    if d < 10 {
        crate::text::digit_char(d)
    } else if d == 10 {
        'a'
    } else if d == 11 {
        'b'
    } else if d == 12 {
        'c'
    } else if d == 13 {
        'd'
    } else if d == 14 {
        'e'
    } else {
        'f'
    }
}

/// Hexadecimal digit `i` (from the most significant, `i < 32`) of `v`.
pub open spec fn nibble(v: u128, i: nat) -> nat {
    ((v >> ((4 * (31 - i)) as u128)) & 0xf) as nat
}

/// The hyphenated text of the UUID with value `id`: its 32 lower-case hex
/// digits, most significant first, with `-` after the 8th, 12th, 16th and 20th.
pub open spec fn uuid_text(id: u128) -> Seq<char> {
    Seq::new(
        36,
        |k: int|
            if k == 8 || k == 13 || k == 18 || k == 23 {
                '-'
            } else {
                hex_digit(
                    nibble(
                        id,
                        (if k < 8 {
                            k
                        } else if k < 13 {
                            k - 1
                        } else if k < 18 {
                            k - 2
                        } else if k < 23 {
                            k - 3
                        } else {
                            k - 4
                        }) as nat,
                    ),
                )
            },
    )
}

/// Formats a UUID given by its value with uuid's `Uuid::from_u128` and its
/// `Display` (the hyphenated lower-case form). The contract states that form.
#[verifier::external_body]
fn format_uuid(id: u128) -> (r: String)
    ensures
        r@ == uuid_text(id),
{
    uuid::Uuid::from_u128(id).to_string()
}

/// The key of an edge's direct path: its UUID followed by `-direct`.
pub fn edge_path_key(edge: &RelationGraphEdge) -> (r: String)
    ensures
        r@ == uuid_text(edge.id) + "-direct"@,
{
    let mut key = format_uuid(edge.id);
    push_text(&mut key, "-direct");
    key
}

/// The index of the field row named `ident`, the first when several are.
pub open spec fn field_index(fields: Seq<Seq<char>>, ident: Seq<char>) -> Option<int>
    decreases fields.len(),
{
    if fields.len() == 0 {
        None
    } else if fields[0] == ident {
        Some(0)
    } else {
        match field_index(fields.drop_first(), ident) {
            Some(i) => Some(i + 1),
            None => None,
        }
    }
}

/// The identifiers of a node's field rows.
pub open spec fn field_idents(fields: Seq<RelationGraphNodeField>) -> Seq<Seq<char>> {
    fields.map_values(|f: RelationGraphNodeField| f.ident@)
}

/// The field row an edge end is anchored at: the first row with the given
/// identifier; `None` for an end anchored at the header or at an unknown row.
pub fn anchor_field_index(fields: &Vec<RelationGraphNodeField>, ident: Option<&str>) -> (r: Option<
    usize,
>)
    ensures
        match ident {
            None => r is None,
            Some(id) => match field_index(field_idents(fields@), id@) {
                Some(i) => r == Some(i as usize),
                None => r is None,
            },
        },
{
    if ident.is_none() {
        return None;
    }
    let id = ident.unwrap();
    proof {
        assert(field_idents(fields@).skip(0) =~= field_idents(fields@));
    }
    let mut i: usize = 0;
    while i < fields.len()
        invariant
            0 <= i <= fields@.len(),
            field_index(field_idents(fields@), id@) == match field_index(
                field_idents(fields@).skip(i as int),
                id@,
            ) {
                Some(j) => Some(j + i),
                None => None,
            },
            ident == Some(id),
        decreases fields.len() - i,
    {
        let ghost rest = field_idents(fields@).skip(i as int);
        proof {
            assert(rest[0] == fields@[i as int].ident@);
            assert(rest.drop_first() =~= field_idents(fields@).skip(i + 1));
        }
        if text_eq(fields[i].ident.as_str(), id) {
            return Some(i);
        }
        i = i + 1;
    }
    proof {
        assert(field_idents(fields@).skip(i as int).len() == 0);
    }
    None
}

/// The identifiers of the nodes, in order.
pub open spec fn node_ids(nodes: Seq<RelationGraphNode>) -> Seq<u128> {
    nodes.map_values(|n: RelationGraphNode| n.id)
}

/// Whether no identifier occurs twice.
pub open spec fn distinct_ids(ids: Seq<u128>) -> bool {
    forall|i: int, j: int| 0 <= i < j < ids.len() ==> ids[i] != ids[j]
}

/// The position of `id` among `ids`, the first when several are.
pub open spec fn index_of(ids: Seq<u128>, id: u128) -> Option<int>
    decreases ids.len(),
{
    if ids.len() == 0 {
        None
    } else if ids[0] == id {
        Some(0)
    } else {
        match index_of(ids.drop_first(), id) {
            Some(i) => Some(i + 1),
            None => None,
        }
    }
}

/// The edges between two different known nodes, as pairs of node positions,
/// in edge order; edges with an unknown end and self-relations are left out.
pub open spec fn index_pairs(ids: Seq<u128>, edges: Seq<RelationGraphEdge>) -> Seq<(usize, usize)>
    decreases edges.len(),
{
    if edges.len() == 0 {
        Seq::empty()
    } else {
        let rest = index_pairs(ids, edges.drop_last());
        let e = edges.last();
        match (index_of(ids, e.source), index_of(ids, e.target)) {
            (Some(s), Some(t)) => if s != t {
                rest.push((s as usize, t as usize))
            } else {
                rest
            },
            _ => rest,
        }
    }
}

proof fn lemma_index_of(ids: Seq<u128>, id: u128)
    ensures
        match index_of(ids, id) {
            Some(i) => 0 <= i < ids.len() && ids[i] == id && forall|j: int|
                0 <= j < i ==> ids[j] != id,
            None => forall|j: int| 0 <= j < ids.len() ==> ids[j] != id,
        },
    decreases ids.len(),
{
    if ids.len() > 0 {
        lemma_index_of(ids.drop_first(), id);
        if ids[0] != id {
            assert forall|j: int| 0 < j < ids.len() implies ids[j] == ids.drop_first()[j - 1] by {}
        }
    }
}

proof fn lemma_index_of_at(ids: Seq<u128>, id: u128, k: int)
    requires
        0 <= k < ids.len(),
        ids[k] == id,
        forall|j: int| 0 <= j < k ==> ids[j] != id,
    ensures
        index_of(ids, id) == Some(k),
    decreases ids.len(),
{
    if k > 0 {
        assert forall|j: int| 0 <= j < k - 1 implies ids.drop_first()[j] != id by {
            assert(ids.drop_first()[j] == ids[j + 1]);
        }
        lemma_index_of_at(ids.drop_first(), id, k - 1);
    }
}

fn find_index(ids: &Vec<u128>, id: u128) -> (r: Option<usize>)
    ensures
        match r {
            Some(i) => index_of(ids@, id) == Some(i as int),
            None => index_of(ids@, id) is None,
        },
{
    proof {
        lemma_index_of(ids@, id);
    }
    let mut i: usize = 0;
    while i < ids.len()
        invariant
            0 <= i <= ids@.len(),
            forall|j: int| 0 <= j < i ==> ids@[j] != id,
        decreases ids.len() - i,
    {
        if ids[i] == id {
            proof {
                lemma_index_of_at(ids@, id, i as int);
            }
            return Some(i);
        }
        i = i + 1;
    }
    None
}

/// The identifiers of the nodes, in order.
pub fn collect_ids(nodes: &Vec<RelationGraphNode>) -> (r: Vec<u128>)
    ensures
        r@ == node_ids(nodes@),
{
    let mut r: Vec<u128> = Vec::new();
    let mut i: usize = 0;
    while i < nodes.len()
        invariant
            0 <= i <= nodes@.len(),
            r@ == node_ids(nodes@.take(i as int)),
        decreases nodes.len() - i,
    {
        proof {
            assert(node_ids(nodes@.take(i + 1)) =~= node_ids(nodes@.take(i as int)).push(
                nodes@[i as int].id,
            ));
        }
        r.push(nodes[i].id);
        i = i + 1;
    }
    proof {
        assert(nodes@.take(nodes@.len() as int) =~= nodes@);
    }
    r
}

/// The known, non-self edges as pairs of node positions.
pub fn edge_index_pairs(ids: &Vec<u128>, edges: &Vec<RelationGraphEdge>) -> (r: Vec<(usize, usize)>)
    ensures
        r@ == index_pairs(ids@, edges@),
{
    let mut r: Vec<(usize, usize)> = Vec::new();
    let mut k: usize = 0;
    while k < edges.len()
        invariant
            0 <= k <= edges@.len(),
            r@ == index_pairs(ids@, edges@.take(k as int)),
        decreases edges.len() - k,
    {
        proof {
            assert(edges@.take(k + 1).drop_last() =~= edges@.take(k as int));
        }
        let s = find_index(ids, edges[k].source);
        let t = find_index(ids, edges[k].target);
        match (s, t) {
            (Some(s), Some(t)) => {
                if s != t {
                    r.push((s, t));
                }
            },
            _ => {},
        }
        k = k + 1;
    }
    proof {
        assert(edges@.take(edges@.len() as int) =~= edges@);
    }
    r
}

/// Whether every pair names positions below `n`.
pub open spec fn pairs_within(pairs: Seq<(usize, usize)>, n: nat) -> bool {
    forall|j: int| 0 <= j < pairs.len() ==> (#[trigger] pairs[j]).0 < n && pairs[j].1 < n
}

/// The largest `known[s] + 1` over the first `m` pairs `(s, v)` whose source
/// `s` has a known value.
pub open spec fn best_from(pairs: Seq<(usize, usize)>, known: Seq<Option<nat>>, v: int, m: int) -> Option<
    nat,
>
    decreases m,
{
    if m <= 0 {
        None
    } else {
        let prev = best_from(pairs, known, v, m - 1);
        let s = pairs[m - 1].0 as int;
        let t = pairs[m - 1].1 as int;
        if t == v && known[s] is Some {
            let c = known[s].unwrap() + 1;
            match prev {
                Some(p) => Some(
                    if p >= c {
                        p
                    } else {
                        c
                    },
                ),
                None => Some(c),
            }
        } else {
            prev
        }
    }
}

/// Every value known.
pub open spec fn all_known(d: Seq<nat>) -> Seq<Option<nat>> {
    d.map_values(|x: nat| Some(x))
}

/// One step of longest-chain relaxation: a node with predecessors lies one
/// past the deepest of them, a node without lies at 0.
pub open spec fn deepen(pairs: Seq<(usize, usize)>, d: Seq<nat>) -> Seq<nat> {
    Seq::new(
        d.len(),
        |v: int|
            match best_from(pairs, all_known(d), v, pairs.len() as int) {
                Some(b) => b,
                None => 0,
            },
    )
}

/// `depths(pairs, n, k)[v]`: the length of the longest chain of at most `k`
/// relations ending at node `v`.
pub open spec fn depths(pairs: Seq<(usize, usize)>, n: nat, k: nat) -> Seq<nat>
    decreases k,
{
    if k == 0 {
        Seq::new(n, |v: int| 0nat)
    } else {
        deepen(pairs, depths(pairs, n, (k - 1) as nat))
    }
}

/// The layers of the nodes that no cycle of relations reaches: the length of
/// the longest chain of relations ending at them. Such a chain has fewer than
/// `n` relations, while a node downstream of a cycle ends chains of any length.
pub open spec fn settled_layers(pairs: Seq<(usize, usize)>, n: nat) -> Seq<Option<nat>> {
    let d = depths(pairs, n, n);
    Seq::new(
        n,
        |v: int|
            if d[v] < n {
                Some(d[v])
            } else {
                None
            },
    )
}

/// The layers known once the nodes outside cycles are placed: those nodes at
/// their depth, and a node downstream of a cycle one past its deepest placed
/// predecessor, when it has one.
pub open spec fn placed_layers(pairs: Seq<(usize, usize)>, n: nat) -> Seq<Option<nat>> {
    let s = settled_layers(pairs, n);
    Seq::new(
        n,
        |v: int|
            if s[v] is Some {
                s[v]
            } else {
                best_from(pairs, s, v, pairs.len() as int)
            },
    )
}

/// The remaining nodes placed one after the other in node order, each one
/// past its deepest predecessor with a layer so far, or at 0.
pub open spec fn fallback_layers(pairs: Seq<(usize, usize)>, init: Seq<Option<nat>>, k: nat) -> Seq<
    Option<nat>,
>
    decreases k,
{
    if k == 0 {
        init
    } else {
        let prev = fallback_layers(pairs, init, (k - 1) as nat);
        let v = k - 1;
        if prev[v] is Some {
            prev
        } else {
            prev.update(
                v,
                Some(
                    match best_from(pairs, prev, v, pairs.len() as int) {
                        Some(b) => b,
                        None => 0,
                    },
                ),
            )
        }
    }
}

/// The layer of every node of a graph with `n` nodes and the relations `pairs`.
pub open spec fn graph_layers(pairs: Seq<(usize, usize)>, n: nat) -> Seq<nat> {
    let f = fallback_layers(pairs, placed_layers(pairs, n), n);
    Seq::new(
        n,
        |v: int|
            match f[v] {
                Some(x) => x,
                None => 0,
            },
    )
}

/// The values of a vector of optional counts.
pub open spec fn known_view(v: Seq<Option<usize>>) -> Seq<Option<nat>> {
    v.map_values(|o: Option<usize>|
        match o {
            Some(x) => Some(x as nat),
            None => None,
        })
}

/// Whether every known value is at most `b`.
pub open spec fn known_below(known: Seq<Option<nat>>, b: nat) -> bool {
    forall|i: int| 0 <= i < known.len() ==> ((#[trigger] known[i]) matches Some(x) ==> x <= b)
}

proof fn lemma_best_from_bound(pairs: Seq<(usize, usize)>, known: Seq<Option<nat>>, v: int, m: int, b: nat)
    requires
        pairs_within(pairs, known.len()),
        known_below(known, b),
        m <= pairs.len(),
    ensures
        best_from(pairs, known, v, m) matches Some(x) ==> x <= b + 1,
    decreases m,
{
    if m > 0 {
        lemma_best_from_bound(pairs, known, v, m - 1, b);
        let s = pairs[m - 1].0 as int;
        assert(0 <= s < known.len());
    }
}

/// For every node `v`, the largest `known[s] + 1` over the relations `(s, v)`
/// with a known source.
fn best_incoming(pairs: &Vec<(usize, usize)>, known: &Vec<Option<usize>>, b: Ghost<nat>) -> (r: Vec<
    Option<usize>,
>)
    requires
        pairs_within(pairs@, known@.len() as nat),
        known_below(known_view(known@), b@),
        b@ + 1 <= usize::MAX,
    ensures
        r@.len() == known@.len(),
        forall|v: int|
            0 <= v < known@.len() ==> known_view(r@)[v] == best_from(
                pairs@,
                known_view(known@),
                v,
                pairs@.len() as int,
            ),
{
    let n = known.len();
    let mut r: Vec<Option<usize>> = Vec::new();
    let mut i: usize = 0;
    while i < n
        invariant
            0 <= i <= n,
            n == known@.len(),
            r@.len() == i,
            forall|v: int| 0 <= v < i ==> r@[v] is None,
        decreases n - i,
    {
        r.push(None);
        i = i + 1;
    }
    let ghost kv = known_view(known@);
    let mut j: usize = 0;
    while j < pairs.len()
        invariant
            0 <= j <= pairs@.len(),
            n == known@.len(),
            r@.len() == n,
            kv == known_view(known@),
            pairs_within(pairs@, n as nat),
            known_below(kv, b@),
            b@ + 1 <= usize::MAX,
            forall|v: int| 0 <= v < n ==> known_view(r@)[v] == best_from(pairs@, kv, v, j as int),
        decreases pairs.len() - j,
    {
        let (s, t) = pairs[j];
        proof {
            assert(pairs@[j as int].0 < n && pairs@[j as int].1 < n);
            assert(kv[s as int] == match known@[s as int] {
                Some(x) => Some(x as nat),
                None => None,
            });
        }
        match known[s] {
            Some(x) => {
                proof {
                    assert(kv[s as int] matches Some(y) ==> y <= b@);
                }
                let c = x + 1;
                let next = match r[t] {
                    Some(p) => if p >= c {
                        p
                    } else {
                        c
                    },
                    None => c,
                };
                let ghost before = r@;
                r.set(t, Some(next));
                proof {
                    assert forall|v: int| 0 <= v < n implies known_view(r@)[v] == best_from(
                        pairs@,
                        kv,
                        v,
                        j + 1,
                    ) by {
                        assert(pairs@[j as int] == (s, t));
                        assert(known_view(before)[v] == best_from(pairs@, kv, v, j as int));
                        if v != t {
                            assert(r@[v] == before[v]);
                            assert(known_view(r@)[v] == known_view(before)[v]);
                        } else {
                            assert(r@[v] == Some(next));
                            assert(kv[s as int] == Some(x as nat));
                        }
                    }
                }
            },
            None => {},
        }
        j = j + 1;
    }
    r
}

proof fn lemma_depths_len(pairs: Seq<(usize, usize)>, n: nat, k: nat)
    ensures
        depths(pairs, n, k).len() == n,
    decreases k,
{
    if k > 0 {
        lemma_depths_len(pairs, n, (k - 1) as nat);
    }
}

fn lift(d: &Vec<usize>) -> (r: Vec<Option<usize>>)
    ensures
        r@.len() == d@.len(),
        forall|v: int| 0 <= v < d@.len() ==> r@[v] == Some(d@[v]),
{
    let mut r: Vec<Option<usize>> = Vec::new();
    let mut i: usize = 0;
    while i < d.len()
        invariant
            0 <= i <= d@.len(),
            r@.len() == i,
            forall|v: int| 0 <= v < i ==> r@[v] == Some(d@[v]),
        decreases d.len() - i,
    {
        r.push(Some(d[i]));
        i = i + 1;
    }
    r
}

/// The longest chain of at most `n` relations ending at each node.
fn chain_depths(pairs: &Vec<(usize, usize)>, n: usize) -> (d: Vec<usize>)
    requires
        pairs_within(pairs@, n as nat),
        n < usize::MAX,
    ensures
        d@.len() == n,
        forall|v: int| 0 <= v < n ==> d@[v] as nat == depths(pairs@, n as nat, n as nat)[v],
{
    let mut d: Vec<usize> = Vec::new();
    let mut i: usize = 0;
    while i < n
        invariant
            0 <= i <= n,
            d@.len() == i,
            forall|v: int| 0 <= v < i ==> d@[v] == 0,
        decreases n - i,
    {
        d.push(0);
        i = i + 1;
    }
    let mut k: usize = 0;
    while k < n
        invariant
            0 <= k <= n < usize::MAX,
            d@.len() == n,
            pairs_within(pairs@, n as nat),
            depths(pairs@, n as nat, k as nat).len() == n,
            forall|v: int| 0 <= v < n ==> d@[v] as nat == depths(pairs@, n as nat, k as nat)[v],
            forall|v: int| 0 <= v < n ==> d@[v] <= k,
        decreases n - k,
    {
        let known = lift(&d);
        let ghost dk = depths(pairs@, n as nat, k as nat);
        proof {
            assert(known_view(known@) =~= all_known(dk));
            assert(known_below(known_view(known@), k as nat));
        }
        let best = best_incoming(pairs, &known, Ghost(k as nat));
        let mut next: Vec<usize> = Vec::new();
        let mut v: usize = 0;
        while v < n
            invariant
                0 <= v <= n,
                next@.len() == v,
                best@.len() == n,
                known@.len() == n,
                pairs_within(pairs@, n as nat),
                known_view(known@) == all_known(dk),
                known_below(known_view(known@), k as nat),
                dk.len() == n,
                forall|w: int| 0 <= w < n ==> known_view(best@)[w] == best_from(
                    pairs@,
                    known_view(known@),
                    w,
                    pairs@.len() as int,
                ),
                forall|w: int| 0 <= w < v ==> next@[w] as nat == deepen(pairs@, dk)[w] && next@[w] <= k + 1,
            decreases n - v,
        {
            proof {
                lemma_best_from_bound(pairs@, known_view(known@), v as int, pairs@.len() as int, k as nat);
                assert(known_view(best@)[v as int] == match best@[v as int] {
                    Some(x) => Some(x as nat),
                    None => None,
                });
            }
            let x = match best[v] {
                Some(b) => b,
                None => 0,
            };
            next.push(x);
            v = v + 1;
        }
        d = next;
        proof {
            assert(depths(pairs@, n as nat, (k + 1) as nat) == deepen(pairs@, dk));
        }
        k = k + 1;
    }
    d
}

proof fn lemma_index_pairs_within(ids: Seq<u128>, edges: Seq<RelationGraphEdge>)
    ensures
        pairs_within(index_pairs(ids, edges), ids.len()),
    decreases edges.len(),
{
    if edges.len() > 0 {
        lemma_index_pairs_within(ids, edges.drop_last());
        lemma_index_of(ids, edges.last().source);
        lemma_index_of(ids, edges.last().target);
    }
}

/// The layer of every node, in node order. A node that no cycle of relations
/// reaches lies at the length of the longest chain of relations ending at it
/// (0 without predecessors); a node downstream of a cycle lies one past its
/// deepest such predecessor, or, without one, is placed in node order one past
/// its deepest predecessor placed so far (0 if none). Edges with an unknown end
/// and self-relations are ignored.
pub fn assign_layers(nodes: &Vec<RelationGraphNode>, edges: &Vec<RelationGraphEdge>) -> (r: Vec<usize>)
    requires
        distinct_ids(node_ids(nodes@)),
        2 * nodes@.len() + 2 <= usize::MAX,
    ensures
        r@.len() == nodes@.len(),
        forall|v: int|
            0 <= v < nodes@.len() ==> r@[v] as nat == graph_layers(
                index_pairs(node_ids(nodes@), edges@),
                nodes@.len(),
            )[v],
        forall|v: int| 0 <= v < nodes@.len() ==> (#[trigger] r@[v]) <= 2 * nodes@.len() + 1,
{
    let ids = collect_ids(nodes);
    let pairs = edge_index_pairs(&ids, edges);
    let n = ids.len();
    let ghost p = pairs@;
    proof {
        lemma_index_pairs_within(ids@, edges@);
        lemma_depths_len(p, n as nat, n as nat);
    }
    let d = chain_depths(&pairs, n);
    let ghost nn = n as nat;
    let mut settled: Vec<Option<usize>> = Vec::new();
    let mut v: usize = 0;
    while v < n
        invariant
            0 <= v <= n,
            d@.len() == n,
            settled@.len() == v,
            depths(p, nn, nn).len() == n,
            nn == n,
            forall|w: int| 0 <= w < n ==> d@[w] as nat == depths(p, nn, nn)[w],
            forall|w: int| 0 <= w < v ==> known_view(settled@)[w] == settled_layers(p, nn)[w],
            forall|w: int| 0 <= w < v ==> ((#[trigger] settled@[w]) matches Some(x) ==> x < n),
        decreases n - v,
    {
        if d[v] < n {
            settled.push(Some(d[v]));
        } else {
            settled.push(None);
        }
        v = v + 1;
    }
    proof {
        assert(known_view(settled@) =~= settled_layers(p, nn));
        assert(known_below(known_view(settled@), nn));
    }
    let best = best_incoming(&pairs, &settled, Ghost(nn));
    let mut cur: Vec<Option<usize>> = Vec::new();
    let mut v: usize = 0;
    while v < n
        invariant
            0 <= v <= n,
            settled@.len() == n,
            best@.len() == n,
            cur@.len() == v,
            nn == n,
            2 * nn + 2 <= usize::MAX,
            pairs_within(p, nn),
            known_view(settled@) == settled_layers(p, nn),
            known_below(known_view(settled@), nn),
            forall|w: int|
                0 <= w < n ==> known_view(best@)[w] == best_from(
                    p,
                    known_view(settled@),
                    w,
                    p.len() as int,
                ),
            forall|w: int| 0 <= w < v ==> known_view(cur@)[w] == placed_layers(p, nn)[w],
            forall|w: int| 0 <= w < v ==> ((#[trigger] cur@[w]) matches Some(x) ==> x <= n + 1),
        decreases n - v,
    {
        proof {
            lemma_best_from_bound(p, known_view(settled@), v as int, p.len() as int, nn);
            assert(known_view(best@)[v as int] == match best@[v as int] {
                Some(x) => Some(x as nat),
                None => None,
            });
            assert(known_view(settled@)[v as int] == match settled@[v as int] {
                Some(x) => Some(x as nat),
                None => None,
            });
        }
        if settled[v].is_some() {
            cur.push(settled[v]);
        } else {
            cur.push(best[v]);
        }
        v = v + 1;
    }
    proof {
        assert(known_view(cur@) =~= placed_layers(p, nn));
        assert(known_view(cur@) == fallback_layers(p, placed_layers(p, nn), 0));
    }
    let ghost init = placed_layers(p, nn);
    let mut k: usize = 0;
    while k < n
        invariant
            0 <= k <= n,
            cur@.len() == n,
            nn == n,
            2 * nn + 2 <= usize::MAX,
            pairs_within(p, nn),
            init == placed_layers(p, nn),
            p == pairs@,
            known_view(cur@) == fallback_layers(p, init, k as nat),
            known_below(known_view(cur@), (nn + 1 + k) as nat),
        decreases n - k,
    {
        let ghost prev = known_view(cur@);
        proof {
            assert(prev[k as int] == match cur@[k as int] {
                Some(x) => Some(x as nat),
                None => None,
            });
        }
        if cur[k].is_none() {
            let best_now = best_incoming(&pairs, &cur, Ghost((nn + 1 + k) as nat));
            proof {
                lemma_best_from_bound(p, prev, k as int, p.len() as int, (nn + 1 + k) as nat);
                assert(known_view(best_now@)[k as int] == match best_now@[k as int] {
                    Some(x) => Some(x as nat),
                    None => None,
                });
            }
            let value = match best_now[k] {
                Some(b) => b,
                None => 0,
            };
            cur.set(k, Some(value));
            proof {
                assert(known_view(cur@) =~= prev.update(k as int, Some(value as nat)));
            }
        }
        proof {
            assert(known_below(known_view(cur@), (nn + 1 + (k + 1)) as nat));
        }
        k = k + 1;
    }
    let mut r: Vec<usize> = Vec::new();
    let mut v: usize = 0;
    while v < n
        invariant
            0 <= v <= n,
            cur@.len() == n,
            nn == n,
            r@.len() == v,
            known_view(cur@) == fallback_layers(p, init, nn),
            init == placed_layers(p, nn),
            forall|w: int| 0 <= w < v ==> r@[w] as nat == graph_layers(p, nn)[w],
            forall|w: int| 0 <= w < v ==> (#[trigger] r@[w]) <= 2 * n + 1,
            known_below(known_view(cur@), (nn + 1 + nn) as nat),
        decreases n - v,
    {
        proof {
            assert(known_view(cur@)[v as int] == match cur@[v as int] {
                Some(x) => Some(x as nat),
                None => None,
            });
        }
        let x = match cur[v] {
            Some(x) => x,
            None => 0,
        };
        r.push(x);
        v = v + 1;
    }
    r
}

proof fn lemma_best_from_ge(pairs: Seq<(usize, usize)>, known: Seq<Option<nat>>, v: int, m: int, j: int)
    requires
        0 <= j < m <= pairs.len(),
        pairs[j].1 as int == v,
        known[pairs[j].0 as int] is Some,
    ensures
        best_from(pairs, known, v, m) matches Some(b) && b >= known[pairs[j].0 as int].unwrap() + 1,
    decreases m,
{
    if j < m - 1 {
        lemma_best_from_ge(pairs, known, v, m - 1, j);
    }
}

proof fn lemma_best_from_congruent(
    pairs: Seq<(usize, usize)>,
    k1: Seq<Option<nat>>,
    k2: Seq<Option<nat>>,
    v: int,
    m: int,
)
    requires
        m <= pairs.len(),
        forall|j: int|
            0 <= j < m && (#[trigger] pairs[j]).1 as int == v ==> k1[pairs[j].0 as int] == k2[pairs[j].0 as int],
    ensures
        best_from(pairs, k1, v, m) == best_from(pairs, k2, v, m),
    decreases m,
{
    if m > 0 {
        lemma_best_from_congruent(pairs, k1, k2, v, m - 1);
        assert(pairs[m - 1] == pairs[m - 1]);
    }
}

/// A chain depth below the bound does not grow with a larger bound.
proof fn lemma_depths_stable(pairs: Seq<(usize, usize)>, n: nat, k: nat, v: int)
    requires
        pairs_within(pairs, n),
        0 <= v < n,
        depths(pairs, n, k)[v] < k,
    ensures
        depths(pairs, n, k + 1)[v] == depths(pairs, n, k)[v],
    decreases k,
{
    lemma_depths_len(pairs, n, k);
    lemma_depths_len(pairs, n, (k - 1) as nat);
    lemma_depths_len(pairs, n, k + 1);
    let d0 = depths(pairs, n, (k - 1) as nat);
    let d1 = depths(pairs, n, k);
    let m = pairs.len() as int;
    assert forall|j: int| 0 <= j < m && (#[trigger] pairs[j]).1 as int == v implies all_known(d1)[
        pairs[j].0 as int
    ] == all_known(d0)[pairs[j].0 as int] by {
        let s = pairs[j].0 as int;
        assert(0 <= s < n);
        lemma_best_from_ge(pairs, all_known(d0), v, m, j);
        assert(d0[s] + 1 <= d1[v]);
        lemma_depths_stable(pairs, n, (k - 1) as nat, s);
    }
    lemma_best_from_congruent(pairs, all_known(d1), all_known(d0), v, m);
}

proof fn lemma_fallback_keeps(pairs: Seq<(usize, usize)>, init: Seq<Option<nat>>, k: nat, v: int)
    requires
        0 <= v < init.len(),
        init[v] is Some,
        k <= init.len(),
    ensures
        fallback_layers(pairs, init, k)[v] == init[v],
        fallback_layers(pairs, init, k).len() == init.len(),
    decreases k,
{
    if k > 0 {
        lemma_fallback_keeps(pairs, init, (k - 1) as nat, v);
    }
}

/// Whether node `v` is out of the reach of every cycle of relations: no chain
/// of `n` relations ends at it.
pub open spec fn settled(pairs: Seq<(usize, usize)>, n: nat, v: int) -> bool {
    depths(pairs, n, n)[v] < n
}

/// Every relation into a node that no cycle reaches comes from such a node in
/// an earlier layer.
pub proof fn lemma_relations_point_forward(pairs: Seq<(usize, usize)>, n: nat, j: int)
    requires
        pairs_within(pairs, n),
        0 <= j < pairs.len(),
        settled(pairs, n, pairs[j].1 as int),
    ensures
        settled(pairs, n, pairs[j].0 as int),
        graph_layers(pairs, n)[pairs[j].0 as int] < graph_layers(pairs, n)[pairs[j].1 as int],
{
    let s = pairs[j].0 as int;
    let t = pairs[j].1 as int;
    let m = pairs.len() as int;
    assert(n > 0);
    lemma_depths_len(pairs, n, n);
    lemma_depths_len(pairs, n, (n - 1) as nat);
    let d0 = depths(pairs, n, (n - 1) as nat);
    let d1 = depths(pairs, n, n);
    lemma_best_from_ge(pairs, all_known(d0), t, m, j);
    assert(d0[s] + 1 <= d1[t]);
    lemma_depths_stable(pairs, n, (n - 1) as nat, s);
    let placed = placed_layers(pairs, n);
    assert(placed[s] == Some(d1[s]));
    assert(placed[t] == Some(d1[t]));
    lemma_fallback_keeps(pairs, placed, n, s);
    lemma_fallback_keeps(pairs, placed, n, t);
}

proof fn lemma_settled_layer(pairs: Seq<(usize, usize)>, n: nat, x: int)
    requires
        pairs_within(pairs, n),
        0 <= x < n,
        settled(pairs, n, x),
    ensures
        graph_layers(pairs, n)[x] == depths(pairs, n, n)[x],
{
    lemma_depths_len(pairs, n, n);
    let placed = placed_layers(pairs, n);
    assert(placed[x] == Some(depths(pairs, n, n)[x]));
    lemma_fallback_keeps(pairs, placed, n, x);
}

/// The layering rule: a node that no cycle of relations reaches lies one past
/// its deepest predecessor (`best_from` over the layers), and at 0 when it has
/// no predecessor.
pub proof fn lemma_layer_one_past_deepest(pairs: Seq<(usize, usize)>, n: nat, v: int)
    requires
        pairs_within(pairs, n),
        0 <= v < n,
        settled(pairs, n, v),
    ensures
        graph_layers(pairs, n)[v] == match best_from(
            pairs,
            all_known(graph_layers(pairs, n)),
            v,
            pairs.len() as int,
        ) {
            Some(b) => b,
            None => 0,
        },
{
    let m = pairs.len() as int;
    lemma_depths_len(pairs, n, n);
    lemma_depths_len(pairs, n, (n - 1) as nat);
    let d0 = depths(pairs, n, (n - 1) as nat);
    let d1 = depths(pairs, n, n);
    let g = graph_layers(pairs, n);
    assert(d1 == deepen(pairs, d0));
    lemma_settled_layer(pairs, n, v);
    assert forall|j: int| 0 <= j < m && (#[trigger] pairs[j]).1 as int == v implies all_known(d0)[
        pairs[j].0 as int
    ] == all_known(g)[pairs[j].0 as int] by {
        let s = pairs[j].0 as int;
        assert(0 <= s < n);
        lemma_best_from_ge(pairs, all_known(d0), v, m, j);
        assert(d0[s] + 1 <= d1[v]);
        lemma_depths_stable(pairs, n, (n - 1) as nat, s);
        assert(d1[s] == d0[s]);
        lemma_settled_layer(pairs, n, s);
    }
    lemma_best_from_congruent(pairs, all_known(d0), all_known(g), v, m);
}

/// Whether `a` comes before `b` in character-code order (`str::cmp`).
pub open spec fn name_lt(a: Seq<char>, b: Seq<char>) -> bool
    decreases a.len(),
{
    if b.len() == 0 {
        false
    } else if a.len() == 0 {
        true
    } else if (a[0] as u32) < (b[0] as u32) {
        true
    } else if a[0] == b[0] {
        name_lt(a.drop_first(), b.drop_first())
    } else {
        false
    }
}

fn chars_lt(a: &Vec<char>, b: &Vec<char>) -> (r: bool)
    ensures
        r == name_lt(a@, b@),
{
    proof {
        assert(a@.skip(0) =~= a@);
        assert(b@.skip(0) =~= b@);
    }
    let mut i: usize = 0;
    while i < a.len() && i < b.len() && a[i] == b[i]
        invariant
            0 <= i <= a@.len(),
            i <= b@.len(),
            name_lt(a@, b@) == name_lt(a@.skip(i as int), b@.skip(i as int)),
        decreases a.len() - i,
    {
        proof {
            assert(a@.skip(i as int).drop_first() =~= a@.skip(i + 1));
            assert(b@.skip(i as int).drop_first() =~= b@.skip(i + 1));
        }
        i = i + 1;
    }
    proof {
        if i < a@.len() {
            assert(a@.skip(i as int)[0] == a@[i as int]);
        }
        if i < b@.len() {
            assert(b@.skip(i as int)[0] == b@[i as int]);
        }
    }
    if i == b.len() {
        false
    } else if i == a.len() {
        true
    } else {
        (a[i] as u32) < (b[i] as u32)
    }
}

/// Whether the barycenter `sum1 / count1` lies before `sum2 / count2`; a node
/// without placed neighbours (count 0) has an infinite barycenter.
pub open spec fn bary_lt(sum1: nat, count1: nat, sum2: nat, count2: nat) -> bool {
    count1 > 0 && (count2 == 0 || sum1 * count2 < sum2 * count1)
}

/// The order of the barycenter sort: by barycenter, then by name.
pub open spec fn key_lt(s1: nat, c1: nat, n1: Seq<char>, s2: nat, c2: nat, n2: Seq<char>) -> bool {
    bary_lt(s1, c1, s2, c2) || (!bary_lt(s2, c2, s1, c1) && name_lt(n1, n2))
}

proof fn lemma_fraction_lt(a: nat, b: nat, c: nat, d: nat)
    requires
        b > 0,
        d > 0,
    ensures
        (a * d < c * b) == ((a / b) < (c / d) || ((a / b) == (c / d) && (a % b) * d < (c % d) * b)),
{
    let q1 = a / b;
    let r1 = a % b;
    let q2 = c / d;
    let r2 = c % d;
    assert(a == q1 * b + r1 && 0 <= r1 < b) by (nonlinear_arith)
        requires
            b > 0,
            q1 == a / b,
            r1 == a % b,
    ;
    assert(c == q2 * d + r2 && 0 <= r2 < d) by (nonlinear_arith)
        requires
            d > 0,
            q2 == c / d,
            r2 == c % d,
    ;
    assert(a * d == q1 * (b * d) + r1 * d) by (nonlinear_arith)
        requires
            a == q1 * b + r1,
    ;
    assert(c * b == q2 * (b * d) + r2 * b) by (nonlinear_arith)
        requires
            c == q2 * d + r2,
    ;
    assert(r1 * d < b * d && r2 * b < b * d) by (nonlinear_arith)
        requires
            0 <= r1 < b,
            0 <= r2 < d,
            b > 0,
            d > 0,
    ;
    if q1 < q2 {
        assert(q1 * (b * d) + b * d <= q2 * (b * d)) by (nonlinear_arith)
            requires
                q1 < q2,
                b * d > 0,
        ;
    } else if q1 > q2 {
        assert(q2 * (b * d) + b * d <= q1 * (b * d)) by (nonlinear_arith)
            requires
                q2 < q1,
                b * d > 0,
        ;
    }
}

fn fraction_lt(a: u128, b: u128, c: u128, d: u128) -> (r: bool)
    requires
        0 < b <= u64::MAX,
        0 < d <= u64::MAX,
    ensures
        r == (a * d < c * b),
{
    proof {
        lemma_fraction_lt(a as nat, b as nat, c as nat, d as nat);
    }
    let q1 = a / b;
    let q2 = c / d;
    if q1 != q2 {
        return q1 < q2;
    }
    let r1 = a % b;
    let r2 = c % d;
    assert(r1 * d <= u128::MAX && r2 * b <= u128::MAX) by (nonlinear_arith)
        requires
            r1 < b <= u64::MAX,
            r2 < d <= u64::MAX,
    ;
    r1 * d < r2 * b
}

/// The barycenter order of two nodes, then their names.
fn key_before(s1: u128, c1: u128, n1: &Vec<char>, s2: u128, c2: u128, n2: &Vec<char>) -> (r: bool)
    requires
        c1 <= u64::MAX,
        c2 <= u64::MAX,
    ensures
        r == key_lt(s1 as nat, c1 as nat, n1@, s2 as nat, c2 as nat, n2@),
{
    let lt12 = c1 > 0 && (c2 == 0 || fraction_lt(s1, c1, s2, c2));
    let lt21 = c2 > 0 && (c1 == 0 || fraction_lt(s2, c2, s1, c1));
    lt12 || (!lt21 && chars_lt(n1, n2))
}

/// `x` inserted into `s` after every element that it does not precede.
pub open spec fn insert_by(s: Seq<usize>, x: usize, lt: spec_fn(usize, usize) -> bool) -> Seq<usize>
    decreases s.len(),
{
    if s.len() == 0 {
        seq![x]
    } else if lt(x, s.last()) {
        insert_by(s.drop_last(), x, lt).push(s.last())
    } else {
        s.push(x)
    }
}

/// The stable sort of `s` by the strict order `lt`, as insertion sort builds it.
pub open spec fn sort_by(s: Seq<usize>, lt: spec_fn(usize, usize) -> bool) -> Seq<usize>
    decreases s.len(),
{
    if s.len() == 0 {
        s
    } else {
        insert_by(sort_by(s.drop_last(), lt), s.last(), lt)
    }
}

/// The barycenter order over nodes with the given barycenter sums, counts and names.
pub open spec fn key_order(sums: Seq<nat>, counts: Seq<nat>, names: Seq<Seq<char>>) -> spec_fn(
    usize,
    usize,
) -> bool {
    |a: usize, b: usize|
        key_lt(
            sums[a as int],
            counts[a as int],
            names[a as int],
            sums[b as int],
            counts[b as int],
            names[b as int],
        )
}

pub open spec fn nat_view(v: Seq<u128>) -> Seq<nat> {
    v.map_values(|x: u128| x as nat)
}

pub open spec fn names_view(v: Seq<Vec<char>>) -> Seq<Seq<char>> {
    v.map_values(|x: Vec<char>| x@)
}

/// Sorts the nodes of one layer by barycenter, then name, keeping the order
/// of equal nodes.
fn sort_layer(layer: &Vec<usize>, sums: &Vec<u128>, counts: &Vec<u128>, names: &Vec<Vec<char>>) -> (r:
    Vec<usize>)
    requires
        sums@.len() == counts@.len(),
        names@.len() == counts@.len(),
        forall|k: int| 0 <= k < layer@.len() ==> (#[trigger] layer@[k]) < counts@.len(),
        forall|k: int| 0 <= k < counts@.len() ==> (#[trigger] counts@[k]) <= u64::MAX,
    ensures
        r@ == sort_by(layer@, key_order(nat_view(sums@), nat_view(counts@), names_view(names@))),
{
    let ghost lt = key_order(nat_view(sums@), nat_view(counts@), names_view(names@));
    let n = counts.len();
    let mut out: Vec<usize> = Vec::new();
    let mut i: usize = 0;
    while i < layer.len()
        invariant
            0 <= i <= layer@.len(),
            n == counts@.len(),
            sums@.len() == n,
            names@.len() == n,
            lt == key_order(nat_view(sums@), nat_view(counts@), names_view(names@)),
            forall|k: int| 0 <= k < layer@.len() ==> (#[trigger] layer@[k]) < n,
            forall|k: int| 0 <= k < n ==> (#[trigger] counts@[k]) <= u64::MAX,
            out@ == sort_by(layer@.take(i as int), lt),
            forall|k: int| 0 <= k < out@.len() ==> (#[trigger] out@[k]) < n,
        decreases layer.len() - i,
    {
        let x = layer[i];
        proof {
            assert(layer@.take(i + 1).drop_last() =~= layer@.take(i as int));
            assert(layer@.take(i + 1).last() == x);
            assert(out@.take(out@.len() as int) =~= out@);
            assert(out@.skip(out@.len() as int) =~= Seq::<usize>::empty());
        }
        let mut j = out.len();
        while j > 0 && key_before(sums[x], counts[x], &names[x], sums[out[j - 1]], counts[out[j - 1]], &names[out[j - 1]])
            invariant
                0 <= j <= out@.len(),
                x < n,
                n == counts@.len(),
                sums@.len() == n,
                names@.len() == n,
                lt == key_order(nat_view(sums@), nat_view(counts@), names_view(names@)),
                forall|k: int| 0 <= k < n ==> (#[trigger] counts@[k]) <= u64::MAX,
                forall|k: int| 0 <= k < out@.len() ==> (#[trigger] out@[k]) < n,
                insert_by(out@, x, lt) == insert_by(out@.take(j as int), x, lt) + out@.skip(j as int),
            decreases j,
        {
            proof {
                let y = out@[j - 1];
                assert(lt(x, y));
                assert(out@.take(j as int).drop_last() =~= out@.take(j - 1));
                assert(out@.take(j as int).last() == y);
                assert(out@.skip(j - 1) =~= seq![y] + out@.skip(j as int));
                assert(insert_by(out@.take(j - 1), x, lt).push(y) + out@.skip(j as int) =~= insert_by(
                    out@.take(j - 1),
                    x,
                    lt,
                ) + out@.skip(j - 1));
            }
            j = j - 1;
        }
        proof {
            if j > 0 {
                let y = out@[j - 1];
                assert(!lt(x, y));
                assert(out@.take(j as int).last() == y);
                assert(out@.take(j as int).drop_last().push(y) =~= out@.take(j as int));
            }
            assert(out@.take(j as int).push(x) + out@.skip(j as int) =~= out@.insert(j as int, x));
        }
        out.insert(j, x);
        i = i + 1;
    }
    proof {
        assert(layer@.take(layer@.len() as int) =~= layer@);
    }
    out
}

/// Whether every entry of every layer is below `n`.
pub open spec fn layers_within(lv: Seq<Seq<usize>>, n: nat) -> bool {
    forall|l: int, k: int| 0 <= l < lv.len() && 0 <= k < lv[l].len() ==> (#[trigger] lv[l][k]) < n
}

/// `pos` after recording the first `i` nodes of `layer` at their index.
pub open spec fn stamp(pos: Seq<Option<nat>>, layer: Seq<usize>, i: int) -> Seq<Option<nat>>
    decreases i,
{
    if i <= 0 {
        pos
    } else {
        stamp(pos, layer, i - 1).update(layer[i - 1] as int, Some((i - 1) as nat))
    }
}

pub open spec fn positions_upto(lv: Seq<Seq<usize>>, n: nat, l: int) -> Seq<Option<nat>>
    decreases l,
{
    if l <= 0 {
        Seq::new(n, |v: int| None::<nat>)
    } else {
        stamp(positions_upto(lv, n, l - 1), lv[l - 1], lv[l - 1].len() as int)
    }
}

/// The index of every node within its layer (the last listing wins, as when
/// collecting into a map); `None` for a node in no layer.
pub open spec fn positions(lv: Seq<Seq<usize>>, n: nat) -> Seq<Option<nat>> {
    positions_upto(lv, n, lv.len() as int)
}

/// The sum and the count of the positions of the placed neighbours of `v` over
/// the first `m` relations: its sources when `incoming`, else its targets.
pub open spec fn bary(pairs: Seq<(usize, usize)>, pos: Seq<Option<nat>>, v: int, incoming: bool, m: int) -> (
    nat,
    nat,
)
    decreases m,
{
    if m <= 0 {
        (0, 0)
    } else {
        let prev = bary(pairs, pos, v, incoming, m - 1);
        let me = if incoming {
            pairs[m - 1].1
        } else {
            pairs[m - 1].0
        };
        let other = if incoming {
            pairs[m - 1].0
        } else {
            pairs[m - 1].1
        };
        if me as int == v && pos[other as int] is Some {
            (prev.0 + pos[other as int].unwrap(), prev.1 + 1)
        } else {
            prev
        }
    }
}

/// One sweep of the barycenter ordering: every layer but the first (downward,
/// by incoming relations) or but the last (upward, by outgoing relations) is
/// sorted by the barycenter of its nodes' neighbours, then by name, with the
/// positions taken before the sweep.
pub open spec fn sweep(
    pairs: Seq<(usize, usize)>,
    names: Seq<Seq<char>>,
    lv: Seq<Seq<usize>>,
    n: nat,
    down: bool,
) -> Seq<Seq<usize>> {
    let pos = positions(lv, n);
    let sums = Seq::new(n, |v: int| bary(pairs, pos, v, down, pairs.len() as int).0);
    let counts = Seq::new(n, |v: int| bary(pairs, pos, v, down, pairs.len() as int).1);
    Seq::new(
        lv.len(),
        |l: int|
            if (down && l == 0) || (!down && l == lv.len() - 1) {
                lv[l]
            } else {
                sort_by(lv[l], key_order(sums, counts, names))
            },
    )
}

pub open spec fn layers_view(lv: Seq<Vec<usize>>) -> Seq<Seq<usize>> {
    lv.map_values(|l: Vec<usize>| l@)
}

fn layer_positions(lv: &Vec<Vec<usize>>, n: usize) -> (pos: Vec<Option<usize>>)
    requires
        layers_within(layers_view(lv@), n as nat),
    ensures
        pos@.len() == n,
        known_view(pos@) == positions(layers_view(lv@), n as nat),
        forall|v: int| 0 <= v < pos@.len() ==> ((#[trigger] pos@[v]) matches Some(x) ==> x < usize::MAX),
{
    let ghost g = layers_view(lv@);
    let mut pos: Vec<Option<usize>> = Vec::new();
    let mut v: usize = 0;
    while v < n
        invariant
            0 <= v <= n,
            pos@.len() == v,
            forall|w: int| 0 <= w < v ==> pos@[w] is None,
        decreases n - v,
    {
        pos.push(None);
        v = v + 1;
    }
    proof {
        assert(known_view(pos@) =~= positions_upto(g, n as nat, 0));
    }
    let mut l: usize = 0;
    while l < lv.len()
        invariant
            0 <= l <= lv@.len(),
            g == layers_view(lv@),
            layers_within(g, n as nat),
            pos@.len() == n,
            known_view(pos@) == positions_upto(g, n as nat, l as int),
            forall|w: int| 0 <= w < pos@.len() ==> ((#[trigger] pos@[w]) matches Some(x) ==> x < usize::MAX),
        decreases lv.len() - l,
    {
        let layer = &lv[l];
        let ghost base = known_view(pos@);
        proof {
            assert(g[l as int] == layer@);
        }
        let mut i: usize = 0;
        while i < layer.len()
            invariant
                0 <= i <= layer@.len(),
                l < lv@.len(),
                g == layers_view(lv@),
                g[l as int] == layer@,
                layers_within(g, n as nat),
                pos@.len() == n,
                known_view(pos@) == stamp(base, layer@, i as int),
                forall|w: int| 0 <= w < pos@.len() ==> ((#[trigger] pos@[w]) matches Some(x) ==> x < usize::MAX),
            decreases layer.len() - i,
        {
            let v = layer[i];
            proof {
                assert(g[l as int][i as int] == v);
                assert(v < n);
            }
            let ghost before = known_view(pos@);
            pos.set(v, Some(i));
            proof {
                assert(known_view(pos@) =~= before.update(v as int, Some(i as nat)));
            }
            i = i + 1;
        }
        l = l + 1;
    }
    pos
}

/// The barycenter sums and counts of all nodes.
fn barycenters(pairs: &Vec<(usize, usize)>, pos: &Vec<Option<usize>>, incoming: bool) -> (r: (
    Vec<u128>,
    Vec<u128>,
))
    requires
        pairs_within(pairs@, pos@.len() as nat),
    ensures
        r.0@.len() == pos@.len(),
        r.1@.len() == pos@.len(),
        forall|v: int|
            0 <= v < pos@.len() ==> (#[trigger] r.0@[v]) as nat == bary(
                pairs@,
                known_view(pos@),
                v,
                incoming,
                pairs@.len() as int,
            ).0,
        forall|v: int|
            0 <= v < pos@.len() ==> (#[trigger] r.1@[v]) as nat == bary(
                pairs@,
                known_view(pos@),
                v,
                incoming,
                pairs@.len() as int,
            ).1,
        forall|v: int| 0 <= v < pos@.len() ==> (#[trigger] r.1@[v]) <= u64::MAX,
{
    let n = pos.len();
    let mut sums: Vec<u128> = Vec::new();
    let mut counts: Vec<u128> = Vec::new();
    let mut v: usize = 0;
    while v < n
        invariant
            0 <= v <= n,
            n == pos@.len(),
            sums@.len() == v,
            counts@.len() == v,
            forall|w: int| 0 <= w < v ==> sums@[w] == 0 && counts@[w] == 0,
        decreases n - v,
    {
        sums.push(0);
        counts.push(0);
        v = v + 1;
    }
    let ghost kp = known_view(pos@);
    let ghost cap = usize::MAX as nat;
    let mut j: usize = 0;
    while j < pairs.len()
        invariant
            0 <= j <= pairs@.len(),
            n == pos@.len(),
            kp == known_view(pos@),
            cap == usize::MAX as nat,
            pairs_within(pairs@, n as nat),
            sums@.len() == n,
            counts@.len() == n,
            forall|w: int|
                0 <= w < n ==> (#[trigger] sums@[w]) as nat == bary(pairs@, kp, w, incoming, j as int).0,
            forall|w: int|
                0 <= w < n ==> (#[trigger] counts@[w]) as nat == bary(pairs@, kp, w, incoming, j as int).1,
            forall|w: int| 0 <= w < n ==> (#[trigger] counts@[w]) <= j,
            forall|w: int| 0 <= w < n ==> (#[trigger] sums@[w]) as nat <= counts@[w] as nat * cap,
        decreases pairs.len() - j,
    {
        let (a, b) = pairs[j];
        proof {
            assert(pairs@[j as int].0 < n && pairs@[j as int].1 < n);
        }
        let me = if incoming {
            b
        } else {
            a
        };
        let other = if incoming {
            a
        } else {
            b
        };
        proof {
            assert(kp[other as int] == match pos@[other as int] {
                Some(x) => Some(x as nat),
                None => None,
            });
        }
        match pos[other] {
            Some(p) => {
                let c = counts[me];
                let sm = sums[me];
                proof {
                    assert(sm as nat <= c as nat * cap);
                    assert(c <= j);
                    assert((c as nat + 1) * cap == c as nat * cap + cap) by (nonlinear_arith);
                    assert((c as nat + 1) * cap <= u128::MAX) by (nonlinear_arith)
                        requires
                            c as nat + 1 <= usize::MAX,
                            cap == usize::MAX as nat,
                            usize::MAX <= u64::MAX,
                    ;
                }
                let ghost sb = sums@;
                let ghost cb = counts@;
                sums.set(me, sm + p as u128);
                counts.set(me, c + 1);
                proof {
                    assert forall|w: int| 0 <= w < n implies (#[trigger] sums@[w]) as nat == bary(
                        pairs@,
                        kp,
                        w,
                        incoming,
                        j + 1,
                    ).0 && (#[trigger] counts@[w]) as nat == bary(pairs@, kp, w, incoming, j + 1).1 by {
                        if w != me {
                            assert(sums@[w] == sb[w]);
                            assert(counts@[w] == cb[w]);
                        }
                    }
                    assert forall|w: int| 0 <= w < n implies (#[trigger] sums@[w]) as nat <= counts@[w] as nat * cap by {
                        if w != me {
                            assert(sums@[w] == sb[w]);
                            assert(counts@[w] == cb[w]);
                        }
                    }
                }
            },
            None => {},
        }
        j = j + 1;
    }
    (sums, counts)
}

proof fn lemma_insert_by_multiset(s: Seq<usize>, x: usize, lt: spec_fn(usize, usize) -> bool)
    ensures
        insert_by(s, x, lt).to_multiset() =~= s.to_multiset().insert(x),
    decreases s.len(),
{
    broadcast use vstd::seq_lib::group_to_multiset_ensures;
    broadcast use vstd::multiset::group_multiset_axioms;

    if s.len() == 0 {
        assert(seq![x] =~= Seq::<usize>::empty().push(x));
    } else {
        assert(s =~= s.drop_last().push(s.last()));
        if lt(x, s.last()) {
            lemma_insert_by_multiset(s.drop_last(), x, lt);
        }
    }
}

/// Sorting keeps the elements: the sorted list is a permutation.
pub proof fn lemma_sort_by_multiset(s: Seq<usize>, lt: spec_fn(usize, usize) -> bool)
    ensures
        sort_by(s, lt).to_multiset() =~= s.to_multiset(),
    decreases s.len(),
{
    broadcast use vstd::seq_lib::group_to_multiset_ensures;

    if s.len() > 0 {
        lemma_sort_by_multiset(s.drop_last(), lt);
        lemma_insert_by_multiset(sort_by(s.drop_last(), lt), s.last(), lt);
        assert(s =~= s.drop_last().push(s.last()));
    }
}

/// Whether no element of `s` is strictly before its predecessor by `lt`.
pub open spec fn in_order(s: Seq<usize>, lt: spec_fn(usize, usize) -> bool) -> bool {
    forall|i: int| 0 < i < s.len() ==> !lt(#[trigger] s[i], s[i - 1])
}

proof fn lemma_insert_by_in_order(s: Seq<usize>, x: usize, lt: spec_fn(usize, usize) -> bool)
    requires
        in_order(s, lt),
        forall|a: usize, b: usize| #[trigger] lt(a, b) ==> !lt(b, a),
    ensures
        in_order(insert_by(s, x, lt), lt),
        insert_by(s, x, lt).len() == s.len() + 1,
        s.len() > 0 ==> insert_by(s, x, lt).last() == (if lt(x, s.last()) {
            s.last()
        } else {
            x
        }),
        s.len() > 0 && lt(x, s.last()) ==> insert_by(s, x, lt).drop_last() == insert_by(s.drop_last(), x, lt),
    decreases s.len(),
{
    if s.len() > 0 {
        let t = s.drop_last();
        assert(in_order(t, lt)) by {
            assert forall|i: int| 0 < i < t.len() implies !lt(#[trigger] t[i], t[i - 1]) by {
                assert(t[i] == s[i] && t[i - 1] == s[i - 1]);
            }
        }
        if lt(x, s.last()) {
            lemma_insert_by_in_order(t, x, lt);
            let u = insert_by(t, x, lt);
            let r = u.push(s.last());
            assert forall|i: int| 0 < i < r.len() implies !lt(#[trigger] r[i], r[i - 1]) by {
                if i < r.len() - 1 {
                    assert(r[i] == u[i] && r[i - 1] == u[i - 1]);
                } else {
                    assert(r[i] == s.last());
                    assert(r[i - 1] == u.last());
                    if t.len() > 0 && lt(x, t.last()) {
                        assert(u.last() == t.last());
                        assert(t.last() == s[s.len() - 2]);
                    } else {
                        assert(u.last() == x);
                    }
                }
            }
        } else {
            let r = s.push(x);
            assert forall|i: int| 0 < i < r.len() implies !lt(#[trigger] r[i], r[i - 1]) by {
                if i < r.len() - 1 {
                    assert(r[i] == s[i] && r[i - 1] == s[i - 1]);
                }
            }
        }
    }
}

/// Sorting by an asymmetric order leaves no element before its predecessor.
pub proof fn lemma_sort_by_in_order(s: Seq<usize>, lt: spec_fn(usize, usize) -> bool)
    requires
        forall|a: usize, b: usize| #[trigger] lt(a, b) ==> !lt(b, a),
    ensures
        in_order(sort_by(s, lt), lt),
        sort_by(s, lt).len() == s.len(),
    decreases s.len(),
{
    if s.len() > 0 {
        lemma_sort_by_in_order(s.drop_last(), lt);
        lemma_insert_by_in_order(sort_by(s.drop_last(), lt), s.last(), lt);
    }
}

proof fn lemma_name_lt_asymmetric(a: Seq<char>, b: Seq<char>)
    ensures
        name_lt(a, b) ==> !name_lt(b, a),
    decreases a.len(),
{
    if a.len() > 0 && b.len() > 0 && a[0] == b[0] {
        lemma_name_lt_asymmetric(a.drop_first(), b.drop_first());
    }
}

/// Every layer that a layout starts from lists the layer's nodes in name
/// order: no node's name comes before the name of the node listed before it.
pub proof fn lemma_initial_layers_by_name(layers: Seq<nat>, names: Seq<Seq<char>>, l: int)
    requires
        0 <= l < initial_layers(layers, names).len(),
    ensures
        forall|i: int|
            0 < i < initial_layers(layers, names)[l].len() ==> !name_lt(
                names[(#[trigger] initial_layers(layers, names)[l][i]) as int],
                names[initial_layers(layers, names)[l][i - 1] as int],
            ),
{
    let lt = name_order(names);
    assert forall|a: usize, b: usize| #[trigger] lt(a, b) implies !lt(b, a) by {
        lemma_name_lt_asymmetric(names[a as int], names[b as int]);
    }
    lemma_sort_by_in_order(layer_members(layers, l as nat, layers.len() as int), lt);
}

/// A barycenter sweep orders every layer it moves by barycenter, ties by name:
/// no node comes before the node listed before it by that order.
pub proof fn lemma_sweep_orders_by_barycenter(
    pairs: Seq<(usize, usize)>,
    names: Seq<Seq<char>>,
    lv: Seq<Seq<usize>>,
    n: nat,
    down: bool,
    l: int,
)
    requires
        0 <= l < lv.len(),
        !((down && l == 0) || (!down && l == lv.len() - 1)),
    ensures
        ({
            let pos = positions(lv, n);
            let sums = Seq::new(n, |v: int| bary(pairs, pos, v, down, pairs.len() as int).0);
            let counts = Seq::new(n, |v: int| bary(pairs, pos, v, down, pairs.len() as int).1);
            let layer = sweep(pairs, names, lv, n, down)[l];
            forall|i: int|
                0 < i < layer.len() ==> !key_lt(
                    sums[(#[trigger] layer[i]) as int],
                    counts[layer[i] as int],
                    names[layer[i] as int],
                    sums[layer[i - 1] as int],
                    counts[layer[i - 1] as int],
                    names[layer[i - 1] as int],
                )
        }),
{
    let pos = positions(lv, n);
    let sums = Seq::new(n, |v: int| bary(pairs, pos, v, down, pairs.len() as int).0);
    let counts = Seq::new(n, |v: int| bary(pairs, pos, v, down, pairs.len() as int).1);
    let lt = key_order(sums, counts, names);
    assert forall|a: usize, b: usize| #[trigger] lt(a, b) implies !lt(b, a) by {
        lemma_name_lt_asymmetric(names[a as int], names[b as int]);
        let (s1, c1, s2, c2) = (sums[a as int], counts[a as int], sums[b as int], counts[b as int]);
        if bary_lt(s1, c1, s2, c2) && bary_lt(s2, c2, s1, c1) {
            assert(s1 * c2 < s2 * c1 && s2 * c1 < s1 * c2);
        }
    }
    lemma_sort_by_in_order(lv[l], lt);
    assert(sweep(pairs, names, lv, n, down)[l] == sort_by(lv[l], lt));
}

proof fn lemma_sort_by_within(s: Seq<usize>, lt: spec_fn(usize, usize) -> bool, n: nat)
    requires
        forall|k: int| 0 <= k < s.len() ==> (#[trigger] s[k]) < n,
    ensures
        forall|k: int| 0 <= k < sort_by(s, lt).len() ==> (#[trigger] sort_by(s, lt)[k]) < n,
        sort_by(s, lt).len() == s.len(),
{
    broadcast use vstd::seq_lib::group_to_multiset_ensures;

    lemma_sort_by_multiset(s, lt);
    let t = sort_by(s, lt);
    assert(t.len() == t.to_multiset().len());
    assert(s.len() == s.to_multiset().len());
    assert forall|k: int| 0 <= k < t.len() implies (#[trigger] t[k]) < n by {
        assert(t.contains(t[k]));
        assert(t.to_multiset().count(t[k]) > 0);
        assert(s.contains(t[k]));
    }
}

fn copy_layer(l: &Vec<usize>) -> (c: Vec<usize>)
    ensures
        c@ == l@,
{
    let mut c: Vec<usize> = Vec::new();
    let mut i: usize = 0;
    while i < l.len()
        invariant
            0 <= i <= l@.len(),
            c@ == l@.take(i as int),
        decreases l.len() - i,
    {
        proof {
            assert(l@.take(i + 1) =~= l@.take(i as int).push(l@[i as int]));
        }
        c.push(l[i]);
        i = i + 1;
    }
    proof {
        assert(l@.take(l@.len() as int) =~= l@);
    }
    c
}

/// One barycenter sweep over the layers.
fn sweep_layers(
    pairs: &Vec<(usize, usize)>,
    names: &Vec<Vec<char>>,
    lv: &Vec<Vec<usize>>,
    n: usize,
    down: bool,
) -> (r: Vec<Vec<usize>>)
    requires
        pairs_within(pairs@, n as nat),
        layers_within(layers_view(lv@), n as nat),
        names@.len() == n,
    ensures
        layers_view(r@) == sweep(pairs@, names_view(names@), layers_view(lv@), n as nat, down),
        layers_within(layers_view(r@), n as nat),
{
    let ghost g = layers_view(lv@);
    let pos = layer_positions(lv, n);
    let (sums, counts) = barycenters(pairs, &pos, down);
    let ghost pv = positions(g, n as nat);
    let ghost sv = Seq::new(n as nat, |v: int| bary(pairs@, pv, v, down, pairs@.len() as int).0);
    let ghost cv = Seq::new(n as nat, |v: int| bary(pairs@, pv, v, down, pairs@.len() as int).1);
    proof {
        assert(nat_view(sums@) =~= sv);
        assert(nat_view(counts@) =~= cv);
    }
    let ghost target = sweep(pairs@, names_view(names@), g, n as nat, down);
    let mut out: Vec<Vec<usize>> = Vec::new();
    let mut l: usize = 0;
    let len = lv.len();
    while l < len
        invariant
            0 <= l <= len,
            len == lv@.len(),
            g == layers_view(lv@),
            layers_within(g, n as nat),
            target == sweep(pairs@, names_view(names@), g, n as nat, down),
            target.len() == len,
            nat_view(sums@) == sv,
            nat_view(counts@) == cv,
            sums@.len() == n,
            counts@.len() == n,
            names@.len() == n,
            forall|k: int| 0 <= k < n ==> (#[trigger] counts@[k]) <= u64::MAX,
            sv == Seq::new(n as nat, |v: int| bary(pairs@, pv, v, down, pairs@.len() as int).0),
            cv == Seq::new(n as nat, |v: int| bary(pairs@, pv, v, down, pairs@.len() as int).1),
            pv == positions(g, n as nat),
            out@.len() == l,
            forall|k: int| 0 <= k < l ==> (#[trigger] out@[k])@ == target[k],
            forall|k: int, i: int|
                0 <= k < l && 0 <= i < out@[k]@.len() ==> (#[trigger] out@[k]@[i]) < n,
        decreases len - l,
    {
        proof {
            assert(g[l as int] == lv@[l as int]@);
            assert forall|i: int| 0 <= i < g[l as int].len() implies (#[trigger] g[l as int][i]) < n by {}
        }
        if (down && l == 0) || (!down && l == len - 1) {
            let c = copy_layer(&lv[l]);
            out.push(c);
        } else {
            let sorted = sort_layer(&lv[l], &sums, &counts, names);
            proof {
                lemma_sort_by_within(g[l as int], key_order(sv, cv, names_view(names@)), n as nat);
            }
            out.push(sorted);
        }
        l = l + 1;
    }
    proof {
        assert(layers_view(out@) =~= target);
    }
    out
}

/// The nodes among the first `k` whose layer is `l`, in node order.
pub open spec fn layer_members(layers: Seq<nat>, l: nat, k: int) -> Seq<usize>
    decreases k,
{
    if k <= 0 {
        Seq::empty()
    } else {
        let prev = layer_members(layers, l, k - 1);
        if layers[k - 1] == l {
            prev.push((k - 1) as usize)
        } else {
            prev
        }
    }
}

/// The largest layer, 0 when there is none.
pub open spec fn max_layer(layers: Seq<nat>) -> nat
    decreases layers.len(),
{
    if layers.len() == 0 {
        0
    } else {
        let m = max_layer(layers.drop_last());
        if layers.last() > m {
            layers.last()
        } else {
            m
        }
    }
}

/// The order of nodes by name.
pub open spec fn name_order(names: Seq<Seq<char>>) -> spec_fn(usize, usize) -> bool {
    |a: usize, b: usize| name_lt(names[a as int], names[b as int])
}

/// Every layer from 0 to the largest, listing its nodes sorted by name.
pub open spec fn initial_layers(layers: Seq<nat>, names: Seq<Seq<char>>) -> Seq<Seq<usize>> {
    Seq::new(
        max_layer(layers) + 1,
        |l: int| sort_by(layer_members(layers, l as nat, layers.len() as int), name_order(names)),
    )
}

/// `r` rounds of a downward then an upward barycenter sweep.
pub open spec fn refine(
    pairs: Seq<(usize, usize)>,
    names: Seq<Seq<char>>,
    lv: Seq<Seq<usize>>,
    n: nat,
    r: nat,
) -> Seq<Seq<usize>>
    decreases r,
{
    if r == 0 {
        lv
    } else {
        let prev = refine(pairs, names, lv, n, (r - 1) as nat);
        sweep(pairs, names, sweep(pairs, names, prev, n, true), n, false)
    }
}

/// The nodes of every layer in their final order: sorted by name, then four
/// rounds of barycenter sweeps.
pub open spec fn layer_order(pairs: Seq<(usize, usize)>, names: Seq<Seq<char>>, layers: Seq<nat>) -> Seq<
    Seq<usize>,
> {
    refine(pairs, names, initial_layers(layers, names), layers.len(), 4)
}

fn largest(layers: &Vec<usize>) -> (m: usize)
    ensures
        m as nat == max_layer(layers@.map_values(|x: usize| x as nat)),
{
    let ghost lv = layers@.map_values(|x: usize| x as nat);
    let mut m: usize = 0;
    let mut i: usize = 0;
    while i < layers.len()
        invariant
            0 <= i <= layers@.len(),
            lv == layers@.map_values(|x: usize| x as nat),
            m as nat == max_layer(lv.take(i as int)),
        decreases layers.len() - i,
    {
        proof {
            assert(lv.take(i + 1).drop_last() =~= lv.take(i as int));
            assert(lv.take(i + 1).last() == layers@[i as int] as nat);
        }
        if layers[i] > m {
            m = layers[i];
        }
        i = i + 1;
    }
    proof {
        assert(lv.take(layers@.len() as int) =~= lv);
    }
    m
}

fn members(layers: &Vec<usize>, l: usize) -> (r: Vec<usize>)
    ensures
        r@ == layer_members(layers@.map_values(|x: usize| x as nat), l as nat, layers@.len() as int),
        forall|k: int| 0 <= k < r@.len() ==> (#[trigger] r@[k]) < layers@.len(),
{
    let ghost lv = layers@.map_values(|x: usize| x as nat);
    let mut r: Vec<usize> = Vec::new();
    let mut i: usize = 0;
    while i < layers.len()
        invariant
            0 <= i <= layers@.len(),
            lv == layers@.map_values(|x: usize| x as nat),
            r@ == layer_members(lv, l as nat, i as int),
            forall|k: int| 0 <= k < r@.len() ==> (#[trigger] r@[k]) < i,
        decreases layers.len() - i,
    {
        if layers[i] == l {
            r.push(i);
        }
        i = i + 1;
    }
    r
}

/// Orders the nodes of every layer: first by name, then by four rounds of
/// barycenter sweeps.
fn order_layers(pairs: &Vec<(usize, usize)>, names: &Vec<Vec<char>>, layers: &Vec<usize>) -> (r: Vec<
    Vec<usize>,
>)
    requires
        pairs_within(pairs@, layers@.len() as nat),
        names@.len() == layers@.len(),
        forall|v: int| 0 <= v < layers@.len() ==> (#[trigger] layers@[v]) < usize::MAX,
    ensures
        layers_view(r@) == layer_order(
            pairs@,
            names_view(names@),
            layers@.map_values(|x: usize| x as nat),
        ),
        layers_within(layers_view(r@), layers@.len() as nat),
{
    let n = layers.len();
    let ghost lv = layers@.map_values(|x: usize| x as nat);
    let ghost nm = names_view(names@);
    let top = largest(layers);
    let mut zeros: Vec<u128> = Vec::new();
    let mut i: usize = 0;
    while i < n
        invariant
            0 <= i <= n,
            zeros@.len() == i,
            forall|k: int| 0 <= k < i ==> zeros@[k] == 0,
        decreases n - i,
    {
        zeros.push(0);
        i = i + 1;
    }
    proof {
        if n > 0 {
            assert(layers@[0] < usize::MAX);
        }
        assert(top < usize::MAX) by {
            lemma_max_layer_is_one(lv);
        }
    }
    let ghost init = initial_layers(lv, nm);
    let mut grid: Vec<Vec<usize>> = Vec::new();
    let mut l: usize = 0;
    while l <= top
        invariant
            0 <= l <= top + 1,
            top < usize::MAX,
            top as nat == max_layer(lv),
            n == layers@.len(),
            names@.len() == n,
            zeros@.len() == n,
            forall|k: int| 0 <= k < n ==> zeros@[k] == 0,
            lv == layers@.map_values(|x: usize| x as nat),
            nm == names_view(names@),
            init == initial_layers(lv, nm),
            grid@.len() == l,
            forall|k: int| 0 <= k < l ==> (#[trigger] grid@[k])@ == init[k],
            layers_within(layers_view(grid@), n as nat),
        decreases top + 1 - l,
    {
        let m = members(layers, l);
        let sorted = sort_layer(&m, &zeros, &zeros, names);
        proof {
            lemma_sort_by_within(m@, name_order(nm), n as nat);
            assert forall|a: usize, b: usize| a < n && b < n implies #[trigger] key_order(
                nat_view(zeros@),
                nat_view(zeros@),
                nm,
            )(a, b) == name_order(nm)(a, b) by {
                assert(nat_view(zeros@)[a as int] == 0);
                assert(nat_view(zeros@)[b as int] == 0);
            }
            lemma_sort_by_agree(m@, key_order(nat_view(zeros@), nat_view(zeros@), nm), name_order(nm), n as nat);
        }
        let ghost before = grid@;
        grid.push(sorted);
        proof {
            assert forall|a: int, k: int|
                0 <= a < layers_view(grid@).len() && 0 <= k < layers_view(grid@)[a].len() implies (#[trigger] layers_view(
                grid@,
            )[a][k]) < n by {
                if a < l {
                    assert(layers_view(grid@)[a] == layers_view(before)[a]);
                }
            }
        }
        l = l + 1;
    }
    proof {
        assert(layers_view(grid@) =~= init);
        assert(refine(pairs@, nm, init, n as nat, 0) == init);
    }
    let mut round: usize = 0;
    while round < 4
        invariant
            0 <= round <= 4,
            n == layers@.len(),
            names@.len() == n,
            pairs_within(pairs@, n as nat),
            nm == names_view(names@),
            layers_within(layers_view(grid@), n as nat),
            layers_view(grid@) == refine(pairs@, nm, init, n as nat, round as nat),
        decreases 4 - round,
    {
        let down = sweep_layers(pairs, names, &grid, n, true);
        grid = sweep_layers(pairs, names, &down, n, false);
        round = round + 1;
    }
    grid
}

proof fn lemma_max_layer_is_one(lv: Seq<nat>)
    ensures
        lv.len() == 0 ==> max_layer(lv) == 0,
        lv.len() > 0 ==> exists|i: int| 0 <= i < lv.len() && lv[i] == max_layer(lv),
    decreases lv.len(),
{
    if lv.len() > 0 {
        lemma_max_layer_is_one(lv.drop_last());
        if lv.last() <= max_layer(lv.drop_last()) && lv.len() > 1 {
            let i = choose|i: int| 0 <= i < lv.drop_last().len() && lv.drop_last()[i] == max_layer(lv.drop_last());
            assert(lv[i] == lv.drop_last()[i]);
        }
    }
}

proof fn lemma_insert_by_agree(
    s: Seq<usize>,
    x: usize,
    lt1: spec_fn(usize, usize) -> bool,
    lt2: spec_fn(usize, usize) -> bool,
    n: nat,
)
    requires
        x < n,
        forall|k: int| 0 <= k < s.len() ==> (#[trigger] s[k]) < n,
        forall|a: usize, b: usize| a < n && b < n ==> #[trigger] lt1(a, b) == lt2(a, b),
    ensures
        insert_by(s, x, lt1) == insert_by(s, x, lt2),
    decreases s.len(),
{
    if s.len() > 0 {
        lemma_insert_by_agree(s.drop_last(), x, lt1, lt2, n);
    }
}

/// Two orders that agree on the listed elements sort them alike.
proof fn lemma_sort_by_agree(
    s: Seq<usize>,
    lt1: spec_fn(usize, usize) -> bool,
    lt2: spec_fn(usize, usize) -> bool,
    n: nat,
)
    requires
        forall|k: int| 0 <= k < s.len() ==> (#[trigger] s[k]) < n,
        forall|a: usize, b: usize| a < n && b < n ==> #[trigger] lt1(a, b) == lt2(a, b),
    ensures
        sort_by(s, lt1) == sort_by(s, lt2),
    decreases s.len(),
{
    if s.len() > 0 {
        lemma_sort_by_agree(s.drop_last(), lt1, lt2, n);
        lemma_sort_by_within(s.drop_last(), lt1, n);
        lemma_insert_by_agree(sort_by(s.drop_last(), lt1), s.last(), lt1, lt2, n);
    }
}

/// The names of the nodes, in order.
pub open spec fn node_names(nodes: Seq<RelationGraphNode>) -> Seq<Seq<char>> {
    nodes.map_values(|n: RelationGraphNode| n.name@)
}

/// The identifiers of the nodes listed in every layer.
pub open spec fn grid_ids(ids: Seq<u128>, lv: Seq<Seq<usize>>) -> Seq<Seq<u128>> {
    lv.map_values(|l: Seq<usize>| l.map_values(|v: usize| ids[v as int]))
}

/// The layered layout of a relation graph: for every layer from the first,
/// the identifiers of its nodes from top to bottom. A graph without nodes has
/// no layers.
pub open spec fn relation_layout(nodes: Seq<RelationGraphNode>, edges: Seq<RelationGraphEdge>) -> Seq<
    Seq<u128>,
> {
    if nodes.len() == 0 {
        Seq::empty()
    } else {
        let ids = node_ids(nodes);
        let pairs = index_pairs(ids, edges);
        grid_ids(ids, layer_order(pairs, node_names(nodes), graph_layers(pairs, nodes.len())))
    }
}

/// Lays out a relation graph in layers: every node gets its layer (see
/// `assign_layers`), the nodes of a layer are sorted by name and then by four
/// rounds of barycenter sweeps that pull related nodes level with each other.
/// Returns the node identifiers of every layer, top to bottom.
pub fn layer_grid(nodes: &Vec<RelationGraphNode>, edges: &Vec<RelationGraphEdge>) -> (r: Vec<Vec<u128>>)
    requires
        distinct_ids(node_ids(nodes@)),
        2 * nodes@.len() + 2 <= usize::MAX,
    ensures
        r@.map_values(|l: Vec<u128>| l@) == relation_layout(nodes@, edges@),
{
    if nodes.len() == 0 {
        let r: Vec<Vec<u128>> = Vec::new();
        proof {
            assert(r@.map_values(|l: Vec<u128>| l@) =~= Seq::<Seq<u128>>::empty());
        }
        return r;
    }
    let ids = collect_ids(nodes);
    let pairs = edge_index_pairs(&ids, edges);
    let layers = assign_layers(nodes, edges);
    let n = nodes.len();
    let mut names: Vec<Vec<char>> = Vec::new();
    let mut i: usize = 0;
    while i < n
        invariant
            0 <= i <= n,
            n == nodes@.len(),
            names@.len() == i,
            forall|k: int| 0 <= k < i ==> (#[trigger] names@[k])@ == nodes@[k].name@,
        decreases n - i,
    {
        names.push(chars_of(nodes[i].name.as_str()));
        i = i + 1;
    }
    let ghost p = index_pairs(node_ids(nodes@), edges@);
    proof {
        lemma_index_pairs_within(ids@, edges@);
        assert(names_view(names@) =~= node_names(nodes@));
        assert(layers@.map_values(|x: usize| x as nat) =~= graph_layers(p, n as nat));
        assert forall|v: int| 0 <= v < layers@.len() implies (#[trigger] layers@[v]) < usize::MAX by {}
    }
    let order = order_layers(&pairs, &names, &layers);
    let ghost lo = layers_view(order@);
    let mut r: Vec<Vec<u128>> = Vec::new();
    let mut l: usize = 0;
    while l < order.len()
        invariant
            0 <= l <= order@.len(),
            lo == layers_view(order@),
            ids@ == node_ids(nodes@),
            r@.len() == l,
            forall|k: int| 0 <= k < l ==> (#[trigger] r@[k])@ == lo[k].map_values(|v: usize| ids@[v as int]),
            forall|a: int, k: int|
                0 <= a < lo.len() && 0 <= k < lo[a].len() ==> (#[trigger] lo[a][k]) < ids@.len(),
        decreases order.len() - l,
    {
        let layer = &order[l];
        let mut row: Vec<u128> = Vec::new();
        let mut k: usize = 0;
        proof {
            assert(lo[l as int] == layer@);
        }
        while k < layer.len()
            invariant
                0 <= k <= layer@.len(),
                l < lo.len(),
                lo[l as int] == layer@,
                forall|a: int, j: int|
                    0 <= a < lo.len() && 0 <= j < lo[a].len() ==> (#[trigger] lo[a][j]) < ids@.len(),
                row@ == layer@.take(k as int).map_values(|v: usize| ids@[v as int]),
            decreases layer.len() - k,
        {
            proof {
                assert(lo[l as int][k as int] == layer@[k as int]);
                assert(layer@.take(k + 1).map_values(|v: usize| ids@[v as int]) =~= layer@.take(
                    k as int,
                ).map_values(|v: usize| ids@[v as int]).push(ids@[layer@[k as int] as int]));
            }
            row.push(ids[layer[k]]);
            k = k + 1;
        }
        proof {
            assert(layer@.take(layer@.len() as int) =~= layer@);
        }
        r.push(row);
        l = l + 1;
    }
    proof {
        assert(r@.map_values(|x: Vec<u128>| x@) =~= grid_ids(ids@, lo));
    }
    r
}

proof fn lemma_sweep_keeps_members(
    pairs: Seq<(usize, usize)>,
    names: Seq<Seq<char>>,
    lv: Seq<Seq<usize>>,
    n: nat,
    down: bool,
)
    ensures
        sweep(pairs, names, lv, n, down).len() == lv.len(),
        forall|l: int|
            0 <= l < lv.len() ==> (#[trigger] sweep(pairs, names, lv, n, down)[l]).to_multiset()
                == lv[l].to_multiset(),
{
    let pos = positions(lv, n);
    let sums = Seq::new(n, |v: int| bary(pairs, pos, v, down, pairs.len() as int).0);
    let counts = Seq::new(n, |v: int| bary(pairs, pos, v, down, pairs.len() as int).1);
    assert forall|l: int| 0 <= l < lv.len() implies (#[trigger] sweep(pairs, names, lv, n, down)[l]).to_multiset()
        == lv[l].to_multiset() by {
        lemma_sort_by_multiset(lv[l], key_order(sums, counts, names));
    }
}

proof fn lemma_refine_keeps_members(
    pairs: Seq<(usize, usize)>,
    names: Seq<Seq<char>>,
    lv: Seq<Seq<usize>>,
    n: nat,
    r: nat,
)
    ensures
        refine(pairs, names, lv, n, r).len() == lv.len(),
        forall|l: int|
            0 <= l < lv.len() ==> (#[trigger] refine(pairs, names, lv, n, r)[l]).to_multiset()
                == lv[l].to_multiset(),
    decreases r,
{
    if r > 0 {
        let prev = refine(pairs, names, lv, n, (r - 1) as nat);
        lemma_refine_keeps_members(pairs, names, lv, n, (r - 1) as nat);
        let down = sweep(pairs, names, prev, n, true);
        lemma_sweep_keeps_members(pairs, names, prev, n, true);
        lemma_sweep_keeps_members(pairs, names, down, n, false);
        assert forall|l: int| 0 <= l < lv.len() implies (#[trigger] refine(pairs, names, lv, n, r)[l]).to_multiset()
            == lv[l].to_multiset() by {
            assert(down[l].to_multiset() == prev[l].to_multiset());
        }
    }
}

proof fn lemma_members_count(layers: Seq<nat>, l: nat, k: int, v: usize)
    requires
        0 <= k <= layers.len() <= usize::MAX,
    ensures
        layer_members(layers, l, k).to_multiset().count(v) == if v < k && layers[v as int] == l {
            1nat
        } else {
            0nat
        },
    decreases k,
{
    broadcast use vstd::seq_lib::group_to_multiset_ensures;
    broadcast use vstd::multiset::group_multiset_axioms;

    if k <= 0 {
        assert(layer_members(layers, l, k).to_multiset() =~= vstd::multiset::Multiset::<usize>::empty());
    } else {
        lemma_members_count(layers, l, k - 1, v);
        let prev = layer_members(layers, l, k - 1);
        if layers[k - 1] == l {
            assert(prev.push((k - 1) as usize).to_multiset() =~= prev.to_multiset().insert(
                (k - 1) as usize,
            ));
        }
    }
}

proof fn lemma_max_layer_bound(layers: Seq<nat>, v: int)
    requires
        0 <= v < layers.len(),
    ensures
        layers[v] <= max_layer(layers),
    decreases layers.len(),
{
    if v < layers.len() - 1 {
        lemma_max_layer_bound(layers.drop_last(), v);
    }
}

/// The layout lists every node exactly once, in the layer it was assigned.
pub proof fn lemma_every_node_placed_once(
    pairs: Seq<(usize, usize)>,
    names: Seq<Seq<char>>,
    layers: Seq<nat>,
    v: usize,
    l: int,
)
    requires
        v < layers.len() <= usize::MAX,
    ensures
        layer_order(pairs, names, layers).len() == max_layer(layers) + 1,
        layers[v as int] < layer_order(pairs, names, layers).len(),
        0 <= l < layer_order(pairs, names, layers).len() ==> layer_order(pairs, names, layers)[l].to_multiset().count(
            v,
        ) == if layers[v as int] == l {
            1nat
        } else {
            0nat
        },
{
    let init = initial_layers(layers, names);
    lemma_refine_keeps_members(pairs, names, init, layers.len(), 4);
    lemma_max_layer_bound(layers, v as int);
    if 0 <= l < init.len() {
        let members = layer_members(layers, l as nat, layers.len() as int);
        lemma_sort_by_multiset(members, name_order(names));
        lemma_members_count(layers, l as nat, layers.len() as int, v);
    }
}

/// The positions, in edge order, of the edges whose two ends are known nodes:
/// the edges the layout draws (a relation of a node to itself included).
pub open spec fn drawn_edges(ids: Seq<u128>, edges: Seq<RelationGraphEdge>) -> Seq<usize>
    decreases edges.len(),
{
    if edges.len() == 0 {
        Seq::empty()
    } else {
        let rest = drawn_edges(ids, edges.drop_last());
        let e = edges.last();
        if index_of(ids, e.source) is Some && index_of(ids, e.target) is Some {
            rest.push((edges.len() - 1) as usize)
        } else {
            rest
        }
    }
}

/// The drawn edges are exactly the edges whose source and target are both
/// nodes of the graph, listed once each in edge order.
pub proof fn lemma_drawn_edges_join_known_nodes(ids: Seq<u128>, edges: Seq<RelationGraphEdge>)
    requires
        edges.len() <= usize::MAX,
    ensures
        forall|i: int|
            0 <= i < drawn_edges(ids, edges).len() ==> (#[trigger] drawn_edges(ids, edges)[i]) < edges.len(),
        forall|i: int, j: int|
            0 <= i < j < drawn_edges(ids, edges).len() ==> drawn_edges(ids, edges)[i] < drawn_edges(
                ids,
                edges,
            )[j],
        forall|k: int|
            0 <= k < edges.len() ==> (drawn_edges(ids, edges).contains(k as usize) <==> (ids.contains(
                (#[trigger] edges[k]).source,
            ) && ids.contains(edges[k].target))),
    decreases edges.len(),
{
    if edges.len() > 0 {
        let init = edges.drop_last();
        lemma_drawn_edges_join_known_nodes(ids, init);
        let e = edges.last();
        let n = edges.len() - 1;
        let rest = drawn_edges(ids, init);
        let d = drawn_edges(ids, edges);
        lemma_index_of(ids, e.source);
        lemma_index_of(ids, e.target);
        let both = ids.contains(e.source) && ids.contains(e.target);
        assert((index_of(ids, e.source) is Some && index_of(ids, e.target) is Some) == both) by {
            if ids.contains(e.source) {
                let w = choose|w: int| 0 <= w < ids.len() && ids[w] == e.source;
                assert(ids[w] == e.source);
            }
            if ids.contains(e.target) {
                let w = choose|w: int| 0 <= w < ids.len() && ids[w] == e.target;
                assert(ids[w] == e.target);
            }
            if index_of(ids, e.source) is Some {
                assert(ids[index_of(ids, e.source).unwrap()] == e.source);
            }
            if index_of(ids, e.target) is Some {
                assert(ids[index_of(ids, e.target).unwrap()] == e.target);
            }
        }
        assert forall|k: int|
            0 <= k < edges.len() implies (d.contains(k as usize) <==> (ids.contains(
                (#[trigger] edges[k]).source,
            ) && ids.contains(edges[k].target))) by {
            if k < n {
                assert(edges[k] == init[k]);
                if rest.contains(k as usize) {
                    let w = choose|w: int| 0 <= w < rest.len() && rest[w] == k as usize;
                    assert(d[w] == rest[w]);
                }
                if d.contains(k as usize) {
                    let w = choose|w: int| 0 <= w < d.len() && d[w] == k as usize;
                    if w < rest.len() {
                        assert(d[w] == rest[w]);
                    } else {
                        assert(d[w] == n as usize);
                    }
                }
            } else {
                if both {
                    assert(d[d.len() - 1] == n as usize);
                } else {
                    if d.contains(k as usize) {
                        let w = choose|w: int| 0 <= w < d.len() && d[w] == k as usize;
                        assert(rest[w] < init.len());
                    }
                }
            }
        }
    }
}

/// The edges the layout draws: those between known nodes, in edge order.
pub fn drawn_edge_indices(nodes: &Vec<RelationGraphNode>, edges: &Vec<RelationGraphEdge>) -> (r: Vec<
    usize,
>)
    ensures
        r@ == drawn_edges(node_ids(nodes@), edges@),
        forall|i: int| 0 <= i < r@.len() ==> (#[trigger] r@[i]) < edges@.len(),
        forall|i: int, j: int| 0 <= i < j < r@.len() ==> r@[i] < r@[j],
        forall|k: int|
            0 <= k < edges@.len() ==> (r@.contains(k as usize) <==> (node_ids(nodes@).contains(
                (#[trigger] edges@[k]).source,
            ) && node_ids(nodes@).contains(edges@[k].target))),
{
    let m = edges.len();
    proof {
        lemma_drawn_edges_join_known_nodes(node_ids(nodes@), edges@);
    }
    let ids = collect_ids(nodes);
    let mut r: Vec<usize> = Vec::new();
    let mut k: usize = 0;
    while k < edges.len()
        invariant
            0 <= k <= edges@.len(),
            ids@ == node_ids(nodes@),
            r@ == drawn_edges(ids@, edges@.take(k as int)),
        decreases edges.len() - k,
    {
        proof {
            assert(edges@.take(k + 1).drop_last() =~= edges@.take(k as int));
        }
        let s = find_index(&ids, edges[k].source);
        let t = find_index(&ids, edges[k].target);
        if s.is_some() && t.is_some() {
            r.push(k);
        }
        k = k + 1;
    }
    proof {
        assert(edges@.take(edges@.len() as int) =~= edges@);
    }
    r
}

proof fn lemma_best_from_none(pairs: Seq<(usize, usize)>, known: Seq<Option<nat>>, v: int, m: int)
    requires
        m <= pairs.len(),
        forall|j: int| 0 <= j < pairs.len() ==> (#[trigger] pairs[j]).1 as int != v,
    ensures
        best_from(pairs, known, v, m) is None,
    decreases m,
{
    if m > 0 {
        lemma_best_from_none(pairs, known, v, m - 1);
    }
}

/// A node that no relation points to lies in the first layer.
pub proof fn lemma_sources_come_first(pairs: Seq<(usize, usize)>, n: nat, v: int)
    requires
        0 <= v < n,
        forall|j: int| 0 <= j < pairs.len() ==> (#[trigger] pairs[j]).1 as int != v,
    ensures
        graph_layers(pairs, n)[v] == 0,
{
    lemma_depths_len(pairs, n, n);
    if n > 0 {
        lemma_depths_len(pairs, n, (n - 1) as nat);
        lemma_best_from_none(pairs, all_known(depths(pairs, n, (n - 1) as nat)), v, pairs.len() as int);
    }
    let placed = placed_layers(pairs, n);
    assert(placed[v] == Some(0nat));
    lemma_fallback_keeps(pairs, placed, n, v);
}

} // verus!
