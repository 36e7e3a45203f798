use vstd::prelude::*;
use vstd::utf8::encode_utf8;

verus! {

/// The value kind that a property definition declares.
#[derive(Clone, Copy, Debug, PartialEq, Eq, Hash, Structural)]
pub enum PropKind {
    Int,
    Float,
    Vector,
    VectorXY,
    String,
    Array,
    DataTable,
}

/// One property definition of a raw send table.
#[derive(Debug)]
pub struct PropDefinition {
    pub name: String,
    pub kind: PropKind,
    /// Properties that change often are encoded before all others.
    pub changes_often: bool,
    /// `Some(table)` when this definition inlines the named table.
    pub table_ref: Option<String>,
}

/// A `(table, property)` pair that a table removes from its flattened list.
#[derive(Debug)]
pub struct Exclusion {
    pub table: String,
    pub prop: String,
}

impl View for Exclusion {
    type V = (Seq<char>, Seq<char>);

    open spec fn view(&self) -> (Seq<char>, Seq<char>) {
        (self.table@, self.prop@)
    }
}

/// A raw, unflattened send table.
#[derive(Debug)]
pub struct PropSchema {
    pub name: String,
    pub props: Vec<PropDefinition>,
    pub excludes: Vec<Exclusion>,
}

/// The 64-bit key by which a property is addressed while decoding.
#[derive(Clone, Copy, Debug, PartialEq, Eq, Hash, Structural)]
pub struct PropIdentifier(pub u64);

/// A property of a flattened schema.
#[derive(Debug)]
pub struct FlatProp {
    pub identifier: PropIdentifier,
    pub table: String,
    pub name: String,
    pub kind: PropKind,
    pub changes_often: bool,
}

/// What a flattened property stands for.
pub struct FlatPropView {
    pub identifier: u64,
    pub table: Seq<char>,
    pub name: Seq<char>,
    pub kind: PropKind,
    pub changes_often: bool,
}

impl View for FlatProp {
    type V = FlatPropView;

    open spec fn view(&self) -> FlatPropView {
        FlatPropView {
            identifier: self.identifier.0,
            table: self.table@,
            name: self.name@,
            kind: self.kind,
            changes_often: self.changes_often,
        }
    }
}

/// Why a table could not be flattened.
#[derive(Clone, Copy, Debug, PartialEq, Eq, Structural)]
pub enum FlattenError {
    /// A nested reference names a table that is not among the tables.
    UnknownTable,
    /// References nest deeper than there are tables, so they form a cycle.
    NestingTooDeep,
    /// Two different `(table, property)` pairs hash to one identifier.
    IdentifierCollision,
}

pub const FNV_OFFSET: u64 = 0xcbf2_9ce4_8422_2325;

pub const FNV_PRIME: u64 = 0x100_0000_01b3;

/// One step of 64-bit FNV-1a.
pub open spec fn fnv_step(h: u64, b: u8) -> u64 {
    (((h ^ (b as u64)) as nat * FNV_PRIME as nat) % 0x1_0000_0000_0000_0000) as u64
}

/// 64-bit FNV-1a over `bytes`, continuing from `h`.
pub open spec fn fnv(h: u64, bytes: Seq<u8>) -> u64
    decreases bytes.len(),
{
    if bytes.len() == 0 {
        h
    } else {
        fnv_step(fnv(h, bytes.drop_last()), bytes.last())
    }
}

/// The identifier of property `name` of table `table`: FNV-1a over the
/// UTF-8 bytes of `table`, a dot, and `name`.
pub open spec fn prop_identifier(table: Seq<char>, name: Seq<char>) -> u64 {
    fnv(fnv_step(fnv(FNV_OFFSET, encode_utf8(table)), 0x2e), encode_utf8(name))
}

fn fnv_bytes(h: u64, bytes: &[u8]) -> (r: u64)
    ensures
        r == fnv(h, bytes@),
{
    let mut r = h;
    let mut i: usize = 0;
    while i < bytes.len()
        invariant
            i <= bytes@.len(),
            r == fnv(h, bytes@.take(i as int)),
        decreases bytes@.len() - i,
    {
        assert(bytes@.take(i + 1).drop_last() =~= bytes@.take(i as int));
        let x = r ^ (bytes[i] as u64);
        r = ((x as u128 * FNV_PRIME as u128) % 0x1_0000_0000_0000_0000u128) as u64;
        i = i + 1;
    }
    assert(bytes@.take(i as int) =~= bytes@);
    r
}

impl PropIdentifier {
    /// The identifier of property `name` of table `table`.
    pub fn new(table: &str, name: &str) -> (r: PropIdentifier)
        ensures
            r.0 == prop_identifier(table@, name@),
    {
        let h = fnv_bytes(FNV_OFFSET, table.as_bytes());
        let h = ((((h ^ 0x2e) as u128) * FNV_PRIME as u128) % 0x1_0000_0000_0000_0000u128) as u64;
        PropIdentifier(fnv_bytes(h, name.as_bytes()))
    }
}

/// The position of the first table named `name`, searching from `i` on.
pub open spec fn table_position(tables: Seq<PropSchema>, name: Seq<char>, i: int) -> Option<int>
    decreases tables.len() - i,
{
    if i < 0 || i >= tables.len() {
        None
    } else if tables[i].name@ == name {
        Some(i)
    } else {
        table_position(tables, name, i + 1)
    }
}

/// What depth-first expansion of a property list yields: the leaf
/// properties in order, and the exclusions of every table inlined on the way.
pub struct Expansion {
    pub props: Seq<FlatPropView>,
    pub excludes: Seq<(Seq<char>, Seq<char>)>,
}

/// The flattened form of leaf definition `p` of table `owner`.
pub open spec fn leaf_view(owner: Seq<char>, p: PropDefinition) -> FlatPropView {
    FlatPropView {
        identifier: prop_identifier(owner, p.name@),
        table: owner,
        name: p.name@,
        kind: p.kind,
        changes_often: p.changes_often,
    }
}

pub open spec fn exclusion_views(e: Seq<Exclusion>) -> Seq<(Seq<char>, Seq<char>)> {
    e.map_values(|x: Exclusion| x@)
}

pub open spec fn flat_views(s: Seq<FlatProp>) -> Seq<FlatPropView> {
    s.map_values(|x: FlatProp| x@)
}

/// Expands the definitions `props` of table `owner`, inlining each nested
/// table in place, depth-first and in declaration order; `depth` bounds how
/// deep references may nest.
pub open spec fn expand(
    tables: Seq<PropSchema>,
    owner: Seq<char>,
    props: Seq<PropDefinition>,
    depth: nat,
) -> Result<Expansion, FlattenError>
    decreases depth, props.len() + 1,
{
    if props.len() == 0 {
        Ok(Expansion { props: seq![], excludes: seq![] })
    } else {
        match expand(tables, owner, props.drop_last(), depth) {
            Err(e) => Err(e),
            Ok(front) => {
                let p = props.last();
                match p.table_ref {
                    None => Ok(
                        Expansion {
                            props: front.props.push(leaf_view(owner, p)),
                            excludes: front.excludes,
                        },
                    ),
                    Some(r) => match expand_ref(tables, r@, depth) {
                        Err(e) => Err(e),
                        Ok(inner) => Ok(
                            Expansion {
                                props: front.props + inner.props,
                                excludes: front.excludes + inner.excludes,
                            },
                        ),
                    },
                }
            },
        }
    }
}

/// Expands the table named `name` where a definition refers to it: its
/// exclusions come first, then those of the tables it inlines.
pub open spec fn expand_ref(tables: Seq<PropSchema>, name: Seq<char>, depth: nat) -> Result<
    Expansion,
    FlattenError,
>
    decreases depth, 0nat,
{
    if depth == 0 {
        Err(FlattenError::NestingTooDeep)
    } else {
        match table_position(tables, name, 0) {
            None => Err(FlattenError::UnknownTable),
            Some(k) => match expand(tables, tables[k].name@, tables[k].props@, (depth - 1) as nat) {
                Err(e) => Err(e),
                Ok(inner) => Ok(
                    Expansion {
                        props: inner.props,
                        excludes: exclusion_views(tables[k].excludes@) + inner.excludes,
                    },
                ),
            },
        }
    }
}

fn find_table(tables: &Vec<PropSchema>, name: &String) -> (r: Option<usize>)
    ensures
        match r {
            Some(k) => k < tables@.len() && table_position(tables@, name@, 0) == Some(k as int),
            None => table_position(tables@, name@, 0) is None,
        },
{
    let mut i: usize = 0;
    while i < tables.len()
        invariant
            i <= tables@.len(),
            table_position(tables@, name@, 0) == table_position(tables@, name@, i as int),
        decreases tables@.len() - i,
    {
        if tables[i].name == *name {
            return Some(i);
        }
        i = i + 1;
    }
    None
}

fn copy_exclusion(e: &Exclusion) -> (r: Exclusion)
    ensures
        r@ == e@,
{
    Exclusion { table: e.table.clone(), prop: e.prop.clone() }
}

fn leaf(owner: &String, p: &PropDefinition) -> (r: FlatProp)
    ensures
        r@ == leaf_view(owner@, *p),
{
    FlatProp {
        identifier: PropIdentifier::new(owner.as_str(), p.name.as_str()),
        table: owner.clone(),
        name: p.name.clone(),
        kind: p.kind,
        changes_often: p.changes_often,
    }
}

proof fn lemma_expand_prefix_err(
    tables: Seq<PropSchema>,
    owner: Seq<char>,
    props: Seq<PropDefinition>,
    m: int,
    depth: nat,
)
    requires
        0 <= m <= props.len(),
        expand(tables, owner, props.take(m), depth) is Err,
    ensures
        expand(tables, owner, props, depth) == expand(tables, owner, props.take(m), depth),
    decreases props.len(),
{
    if props.len() > m {
        assert(props.drop_last().take(m) =~= props.take(m));
        lemma_expand_prefix_err(tables, owner, props.drop_last(), m, depth);
    } else {
        assert(props.take(m) =~= props);
    }
}

fn expand_ref_into(
    tables: &Vec<PropSchema>,
    name: &String,
    depth: usize,
    out: &mut Vec<FlatProp>,
    excludes: &mut Vec<Exclusion>,
) -> (r: Result<(), FlattenError>)
    ensures
        match expand_ref(tables@, name@, depth as nat) {
            Ok(e) => r is Ok && flat_views(final(out)@) == flat_views(old(out)@) + e.props
                && exclusion_views(final(excludes)@) == exclusion_views(old(excludes)@)
                + e.excludes,
            Err(e) => r == Err::<(), FlattenError>(e),
        },
    decreases depth, 0nat,
{
    if depth == 0 {
        return Err(FlattenError::NestingTooDeep);
    }
    match find_table(tables, name) {
        None => Err(FlattenError::UnknownTable),
        Some(k) => {
            let t = &tables[k];
            let ghost ex0 = exclusion_views(excludes@);
            let mut j: usize = 0;
            assert(t.excludes@.take(0) =~= Seq::<Exclusion>::empty());
            assert(exclusion_views(Seq::<Exclusion>::empty()) =~= Seq::empty());
            assert(ex0 + Seq::<(Seq<char>, Seq<char>)>::empty() =~= ex0);
            while j < t.excludes.len()
                invariant
                    j <= t.excludes@.len(),
                    ex0 == exclusion_views(old(excludes)@),
                    out@ == old(out)@,
                    exclusion_views(excludes@) == ex0 + exclusion_views(t.excludes@.take(j as int)),
                decreases t.excludes@.len() - j,
            {
                let ghost before = excludes@;
                excludes.push(copy_exclusion(&t.excludes[j]));
                assert(exclusion_views(excludes@) =~= exclusion_views(before).push(
                    t.excludes@[j as int]@,
                ));
                assert(exclusion_views(t.excludes@.take(j + 1)) =~= exclusion_views(
                    t.excludes@.take(j as int),
                ).push(t.excludes@[j as int]@));
                j = j + 1;
            }
            assert(t.excludes@.take(j as int) =~= t.excludes@);
            let res = expand_into(tables, &t.name, &t.props, depth - 1, out, excludes);
            match res {
                Err(e) => Err(e),
                Ok(()) => {
                    let ghost inner = expand(
                        tables@,
                        t.name@,
                        t.props@,
                        (depth - 1) as nat,
                    )->Ok_0;
                    assert(exclusion_views(excludes@) =~= ex0 + (exclusion_views(t.excludes@)
                        + inner.excludes));
                    assert(flat_views(out@) == flat_views(old(out)@) + inner.props);
                    Ok(())
                },
            }
        },
    }
}

fn expand_into(
    tables: &Vec<PropSchema>,
    owner: &String,
    props: &Vec<PropDefinition>,
    depth: usize,
    out: &mut Vec<FlatProp>,
    excludes: &mut Vec<Exclusion>,
) -> (r: Result<(), FlattenError>)
    ensures
        match expand(tables@, owner@, props@, depth as nat) {
            Ok(e) => r is Ok && flat_views(final(out)@) == flat_views(old(out)@) + e.props
                && exclusion_views(final(excludes)@) == exclusion_views(old(excludes)@)
                + e.excludes,
            Err(e) => r == Err::<(), FlattenError>(e),
        },
    decreases depth, props@.len() + 1,
{
    let ghost out0 = flat_views(out@);
    let ghost ex0 = exclusion_views(excludes@);
    let mut i: usize = 0;
    assert(props@.take(0) =~= Seq::<PropDefinition>::empty());
    assert(out0 + Seq::<FlatPropView>::empty() =~= out0);
    assert(ex0 + Seq::<(Seq<char>, Seq<char>)>::empty() =~= ex0);
    while i < props.len()
        invariant
            i <= props@.len(),
            out0 == flat_views(old(out)@),
            ex0 == exclusion_views(old(excludes)@),
            expand(tables@, owner@, props@.take(i as int), depth as nat) is Ok,
            flat_views(out@) == out0 + expand(
                tables@,
                owner@,
                props@.take(i as int),
                depth as nat,
            )->Ok_0.props,
            exclusion_views(excludes@) == ex0 + expand(
                tables@,
                owner@,
                props@.take(i as int),
                depth as nat,
            )->Ok_0.excludes,
        decreases props@.len() - i,
    {
        let ghost pre = props@.take(i as int);
        let ghost front = expand(tables@, owner@, pre, depth as nat)->Ok_0;
        assert(props@.take(i + 1).drop_last() =~= pre);
        assert(props@.take(i + 1).last() == props@[i as int]);
        let p = &props[i];
        match &p.table_ref {
            None => {
                let ghost before = out@;
                out.push(leaf(owner, p));
                assert(flat_views(out@) =~= flat_views(before).push(leaf_view(owner@, *p)));
                assert(flat_views(out@) =~= out0 + front.props.push(leaf_view(owner@, *p)));
            },
            Some(r) => {
                let res = expand_ref_into(tables, r, depth, out, excludes);
                match res {
                    Err(e) => {
                        proof {
                            lemma_expand_prefix_err(tables@, owner@, props@, i + 1, depth as nat);
                        }
                        return Err(e);
                    },
                    Ok(()) => {
                        let ghost inner = expand_ref(tables@, r@, depth as nat)->Ok_0;
                        assert(flat_views(out@) =~= out0 + (front.props + inner.props));
                        assert(exclusion_views(excludes@) =~= ex0 + (front.excludes
                            + inner.excludes));
                    },
                }
            },
        }
        i = i + 1;
    }
    assert(props@.take(i as int) =~= props@);
    Ok(())
}

/// Whether the pair of `p` is among `excludes`.
pub open spec fn is_excluded(excludes: Seq<(Seq<char>, Seq<char>)>, p: FlatPropView) -> bool {
    exists|j: int| 0 <= j < excludes.len() && #[trigger] excludes[j] == (p.table, p.name)
}

/// Whether some property of `s` is property `name` of table `table`.
pub open spec fn has_key(s: Seq<FlatPropView>, table: Seq<char>, name: Seq<char>) -> bool {
    exists|j: int| 0 <= j < s.len() && #[trigger] s[j].table == table && s[j].name == name
}

/// Whether some property of `s` has identifier `id`.
pub open spec fn has_identifier(s: Seq<FlatPropView>, id: u64) -> bool {
    exists|j: int| 0 <= j < s.len() && #[trigger] s[j].identifier == id
}

/// The expanded properties that survive the exclusions, each pair kept at
/// its first occurrence; an identifier shared by two different pairs fails.
pub open spec fn select_props(s: Seq<FlatPropView>, excludes: Seq<(Seq<char>, Seq<char>)>) -> Result<
    Seq<FlatPropView>,
    FlattenError,
>
    decreases s.len(),
{
    if s.len() == 0 {
        Ok(seq![])
    } else {
        match select_props(s.drop_last(), excludes) {
            Err(e) => Err(e),
            Ok(front) => {
                let p = s.last();
                if is_excluded(excludes, p) || has_key(front, p.table, p.name) {
                    Ok(front)
                } else if has_identifier(front, p.identifier) {
                    Err(FlattenError::IdentifierCollision)
                } else {
                    Ok(front.push(p))
                }
            },
        }
    }
}

/// The properties of `s` whose changes-often flag is `flag`, in order.
pub open spec fn with_priority(s: Seq<FlatPropView>, flag: bool) -> Seq<FlatPropView>
    decreases s.len(),
{
    if s.len() == 0 {
        s
    } else if s.last().changes_often == flag {
        with_priority(s.drop_last(), flag).push(s.last())
    } else {
        with_priority(s.drop_last(), flag)
    }
}

/// The flattened property list of `schema`: its expansion, less the excluded
/// and repeated pairs, with the changes-often properties moved to the front.
pub open spec fn flatten_spec(tables: Seq<PropSchema>, schema: PropSchema) -> Result<
    Seq<FlatPropView>,
    FlattenError,
> {
    match expand(tables, schema.name@, schema.props@, tables.len()) {
        Err(e) => Err(e),
        Ok(e) => match select_props(e.props, exclusion_views(schema.excludes@) + e.excludes) {
            Err(e) => Err(e),
            Ok(u) => Ok(with_priority(u, true) + with_priority(u, false)),
        },
    }
}

/// Every identifier is the one its pair hashes to.
pub open spec fn ids_consistent(s: Seq<FlatPropView>) -> bool {
    forall|j: int|
        0 <= j < s.len() ==> #[trigger] s[j].identifier == prop_identifier(s[j].table, s[j].name)
}

proof fn lemma_expand_consistent(
    tables: Seq<PropSchema>,
    owner: Seq<char>,
    props: Seq<PropDefinition>,
    depth: nat,
)
    requires
        expand(tables, owner, props, depth) is Ok,
    ensures
        ids_consistent(expand(tables, owner, props, depth)->Ok_0.props),
    decreases depth, props.len() + 1,
{
    if props.len() > 0 {
        lemma_expand_consistent(tables, owner, props.drop_last(), depth);
        let front = expand(tables, owner, props.drop_last(), depth)->Ok_0;
        match props.last().table_ref {
            None => {},
            Some(r) => {
                lemma_expand_ref_consistent(tables, r@, depth);
                let inner = expand_ref(tables, r@, depth)->Ok_0;
                let all = front.props + inner.props;
                assert forall|j: int| 0 <= j < all.len() implies #[trigger] all[j].identifier
                    == prop_identifier(all[j].table, all[j].name) by {
                    if j >= front.props.len() {
                        assert(all[j] == inner.props[j - front.props.len()]);
                    }
                }
            },
        }
    }
}

proof fn lemma_expand_ref_consistent(tables: Seq<PropSchema>, name: Seq<char>, depth: nat)
    requires
        expand_ref(tables, name, depth) is Ok,
    ensures
        ids_consistent(expand_ref(tables, name, depth)->Ok_0.props),
    decreases depth, 0nat,
{
    let k = table_position(tables, name, 0)->Some_0;
    lemma_expand_consistent(tables, tables[k].name@, tables[k].props@, (depth - 1) as nat);
}

fn copy_flat(p: &FlatProp) -> (r: FlatProp)
    ensures
        r@ == p@,
{
    FlatProp {
        identifier: p.identifier,
        table: p.table.clone(),
        name: p.name.clone(),
        kind: p.kind,
        changes_often: p.changes_often,
    }
}

fn excluded(excludes: &Vec<Exclusion>, p: &FlatProp) -> (r: bool)
    ensures
        r == is_excluded(exclusion_views(excludes@), p@),
{
    let mut j: usize = 0;
    while j < excludes.len()
        invariant
            j <= excludes@.len(),
            forall|i: int| 0 <= i < j ==> #[trigger] excludes@[i]@ != (p.table@, p.name@),
        decreases excludes@.len() - j,
    {
        if excludes[j].table == p.table && excludes[j].prop == p.name {
            assert(exclusion_views(excludes@)[j as int] == (p.table@, p.name@));
            return true;
        }
        j = j + 1;
    }
    assert forall|i: int| 0 <= i < exclusion_views(excludes@).len() implies #[trigger] exclusion_views(
        excludes@,
    )[i] != (p.table@, p.name@) by {
        assert(exclusion_views(excludes@)[i] == excludes@[i]@);
    }
    false
}

fn find_identifier(out: &Vec<FlatProp>, id: PropIdentifier) -> (r: Option<usize>)
    ensures
        match r {
            Some(k) => k < out@.len() && out@[k as int].identifier == id,
            None => forall|a: int| 0 <= a < out@.len() ==> #[trigger] out@[a].identifier != id,
        },
{
    let mut k: usize = 0;
    while k < out.len()
        invariant
            k <= out@.len(),
            forall|a: int| 0 <= a < k ==> #[trigger] out@[a].identifier != id,
        decreases out@.len() - k,
    {
        if out[k].identifier == id {
            return Some(k);
        }
        k = k + 1;
    }
    None
}

pub open spec fn ids_distinct(s: Seq<FlatPropView>) -> bool {
    forall|a: int, b: int| 0 <= a < b < s.len() ==> s[a].identifier != s[b].identifier
}

proof fn lemma_select_step(front: Seq<FlatPropView>, p: FlatPropView, k: Option<int>)
    requires
        ids_consistent(front),
        ids_distinct(front),
        p.identifier == prop_identifier(p.table, p.name),
        match k {
            Some(k) => 0 <= k < front.len() && front[k].identifier == p.identifier,
            None => forall|a: int| 0 <= a < front.len() ==> #[trigger] front[a].identifier != p.identifier,
        },
    ensures
        match k {
            Some(k) => has_identifier(front, p.identifier) && (has_key(front, p.table, p.name) <==> (
            front[k].table == p.table && front[k].name == p.name)),
            None => !has_identifier(front, p.identifier) && !has_key(front, p.table, p.name)
                && ids_consistent(front.push(p)) && ids_distinct(front.push(p)),
        },
{
    match k {
        Some(k) => {
            if has_key(front, p.table, p.name) {
                let j = choose|j: int|
                    0 <= j < front.len() && #[trigger] front[j].table == p.table && front[j].name
                        == p.name;
                assert(front[j].identifier == p.identifier);
                assert(j == k);
            }
        },
        None => {
            if has_key(front, p.table, p.name) {
                let j = choose|j: int|
                    0 <= j < front.len() && #[trigger] front[j].table == p.table && front[j].name
                        == p.name;
                assert(front[j].identifier == p.identifier);
            }
            let all = front.push(p);
            assert forall|j: int| 0 <= j < all.len() implies #[trigger] all[j].identifier
                == prop_identifier(all[j].table, all[j].name) by {
                if j < front.len() {
                    assert(all[j] == front[j]);
                }
            }
            assert forall|a: int, b: int|
                0 <= a < b < all.len() implies all[a].identifier != all[b].identifier by {
                assert(all[a] == front[a]);
                if b < front.len() {
                    assert(all[b] == front[b]);
                }
            }
        },
    }
}

proof fn lemma_select_prefix_err(
    s: Seq<FlatPropView>,
    excludes: Seq<(Seq<char>, Seq<char>)>,
    m: int,
)
    requires
        0 <= m <= s.len(),
        select_props(s.take(m), excludes) is Err,
    ensures
        select_props(s, excludes) == select_props(s.take(m), excludes),
    decreases s.len(),
{
    if s.len() > m {
        assert(s.drop_last().take(m) =~= s.take(m));
        lemma_select_prefix_err(s.drop_last(), excludes, m);
    } else {
        assert(s.take(m) =~= s);
    }
}

fn select(expanded: &Vec<FlatProp>, excludes: &Vec<Exclusion>) -> (r: Result<
    Vec<FlatProp>,
    FlattenError,
>)
    requires
        ids_consistent(flat_views(expanded@)),
    ensures
        match select_props(flat_views(expanded@), exclusion_views(excludes@)) {
            Ok(u) => r is Ok && flat_views(r->Ok_0@) == u,
            Err(e) => r == Err::<Vec<FlatProp>, FlattenError>(e),
        },
{
    let ghost all = flat_views(expanded@);
    let ghost ex = exclusion_views(excludes@);
    let mut out: Vec<FlatProp> = Vec::new();
    let mut i: usize = 0;
    assert(all.take(0) =~= Seq::<FlatPropView>::empty());
    assert(flat_views(out@) =~= Seq::<FlatPropView>::empty());
    while i < expanded.len()
        invariant
            i <= expanded@.len(),
            all == flat_views(expanded@),
            ex == exclusion_views(excludes@),
            ids_consistent(all),
            select_props(all.take(i as int), ex) is Ok,
            flat_views(out@) == select_props(all.take(i as int), ex)->Ok_0,
            ids_consistent(flat_views(out@)),
            ids_distinct(flat_views(out@)),
        decreases expanded@.len() - i,
    {
        let ghost front = flat_views(out@);
        assert(all.take(i + 1).drop_last() =~= all.take(i as int));
        assert(all.take(i + 1).last() == all[i as int]);
        let p = &expanded[i];
        assert(all[i as int] == p@);
        assert(p@.identifier == prop_identifier(p@.table, p@.name));
        if !excluded(excludes, p) {
            let found = find_identifier(&out, p.identifier);
            match found {
                Some(k) => {
                    assert(front[k as int] == out@[k as int]@);
                    proof {
                        lemma_select_step(front, p@, Some(k as int));
                    }
                    if !(out[k].table == p.table && out[k].name == p.name) {
                        proof {
                            lemma_select_prefix_err(all, ex, i + 1);
                        }
                        return Err(FlattenError::IdentifierCollision);
                    }
                },
                None => {
                    assert forall|a: int| 0 <= a < front.len() implies #[trigger] front[a].identifier
                        != p@.identifier by {
                        assert(front[a] == out@[a]@);
                    }
                    proof {
                        lemma_select_step(front, p@, None);
                    }
                    out.push(copy_flat(p));
                    assert(flat_views(out@) =~= front.push(p@));
                },
            }
        }
        i = i + 1;
    }
    assert(all.take(i as int) =~= all);
    Ok(out)
}

fn take_priority(u: &Vec<FlatProp>, flag: bool, out: &mut Vec<FlatProp>)
    ensures
        flat_views(final(out)@) == flat_views(old(out)@) + with_priority(flat_views(u@), flag),
{
    let ghost all = flat_views(u@);
    let ghost out0 = flat_views(out@);
    let mut i: usize = 0;
    assert(all.take(0) =~= Seq::<FlatPropView>::empty());
    assert(out0 + Seq::<FlatPropView>::empty() =~= out0);
    while i < u.len()
        invariant
            i <= u@.len(),
            all == flat_views(u@),
            out0 == flat_views(old(out)@),
            flat_views(out@) == out0 + with_priority(all.take(i as int), flag),
        decreases u@.len() - i,
    {
        assert(all.take(i + 1).drop_last() =~= all.take(i as int));
        assert(all.take(i + 1).last() == all[i as int]);
        assert(all[i as int] == u@[i as int]@);
        if u[i].changes_often == flag {
            let ghost before = flat_views(out@);
            out.push(copy_flat(&u[i]));
            assert(flat_views(out@) =~= before.push(all[i as int]));
            assert(flat_views(out@) =~= out0 + with_priority(all.take(i as int), flag).push(
                all[i as int],
            ));
        }
        i = i + 1;
    }
    assert(all.take(i as int) =~= all);
}

impl PropSchema {
    /// Flattens this table against all the tables of the capture.
    pub fn flatten_props(&self, tables: &Vec<PropSchema>) -> (r: Result<
        Vec<FlatProp>,
        FlattenError,
    >)
        ensures
            match flatten_spec(tables@, *self) {
                Ok(v) => r is Ok && flat_views(r->Ok_0@) == v,
                Err(e) => r == Err::<Vec<FlatProp>, FlattenError>(e),
            },
    {
        let mut expanded: Vec<FlatProp> = Vec::new();
        let mut excludes: Vec<Exclusion> = Vec::new();
        let mut j: usize = 0;
        while j < self.excludes.len()
            invariant
                j <= self.excludes@.len(),
                expanded@.len() == 0,
                exclusion_views(excludes@) == exclusion_views(self.excludes@.take(j as int)),
            decreases self.excludes@.len() - j,
        {
            let ghost before = excludes@;
            excludes.push(copy_exclusion(&self.excludes[j]));
            assert(exclusion_views(excludes@) =~= exclusion_views(before).push(
                self.excludes@[j as int]@,
            ));
            assert(exclusion_views(self.excludes@.take(j + 1)) =~= exclusion_views(
                self.excludes@.take(j as int),
            ).push(self.excludes@[j as int]@));
            j = j + 1;
        }
        assert(self.excludes@.take(j as int) =~= self.excludes@);
        assert(flat_views(expanded@) =~= Seq::<FlatPropView>::empty());
        let res = expand_into(tables, &self.name, &self.props, tables.len(), &mut expanded, &mut excludes);
        match res {
            Err(e) => Err(e),
            Ok(()) => {
                let ghost e = expand(tables@, self.name@, self.props@, tables@.len())->Ok_0;
                proof {
                    lemma_expand_consistent(tables@, self.name@, self.props@, tables@.len());
                    assert(flat_views(expanded@) =~= e.props);
                }
                match select(&expanded, &excludes) {
                    Err(e) => Err(e),
                    Ok(u) => {
                        let mut out: Vec<FlatProp> = Vec::new();
                        assert(flat_views(out@) =~= Seq::<FlatPropView>::empty());
                        take_priority(&u, true, &mut out);
                        take_priority(&u, false, &mut out);
                        Ok(out)
                    },
                }
            },
        }
    }
}

/// A networked class of game object, and the send table that describes it.
#[derive(Debug)]
pub struct ServerClass {
    pub id: u16,
    pub name: String,
    pub data_table: String,
}

/// The flattened list of a server class: that of its send table.
pub open spec fn class_flatten(tables: Seq<PropSchema>, class: ServerClass) -> Result<
    Seq<FlatPropView>,
    FlattenError,
> {
    match table_position(tables, class.data_table@, 0) {
        None => Err(FlattenError::UnknownTable),
        Some(k) => flatten_spec(tables, tables[k]),
    }
}

/// The flattened lists of the first `n` classes, or the error of the first
/// class among them that fails.
pub open spec fn classes_flatten(tables: Seq<PropSchema>, classes: Seq<ServerClass>, n: int) -> Result<
    Seq<Seq<FlatPropView>>,
    FlattenError,
>
    decreases n,
{
    if n <= 0 {
        Ok(seq![])
    } else {
        match classes_flatten(tables, classes, n - 1) {
            Err(e) => Err(e),
            Ok(front) => match class_flatten(tables, classes[n - 1]) {
                Err(e) => Err(e),
                Ok(f) => Ok(front.push(f)),
            },
        }
    }
}

pub open spec fn schema_views(s: Seq<Vec<FlatProp>>) -> Seq<Seq<FlatPropView>> {
    s.map_values(|v: Vec<FlatProp>| flat_views(v@))
}

proof fn lemma_classes_prefix_err(tables: Seq<PropSchema>, classes: Seq<ServerClass>, m: int, n: int)
    requires
        0 <= m <= n,
        classes_flatten(tables, classes, m) is Err,
    ensures
        classes_flatten(tables, classes, n) == classes_flatten(tables, classes, m),
    decreases n - m,
{
    if n > m {
        lemma_classes_prefix_err(tables, classes, m, n - 1);
    }
}

/// Flattens every server class once, in class order: the per-class schemas
/// that entity decoding reads for the rest of the capture.
pub fn flatten_classes(tables: &Vec<PropSchema>, classes: &Vec<ServerClass>) -> (r: Result<
    Vec<Vec<FlatProp>>,
    FlattenError,
>)
    ensures
        match classes_flatten(tables@, classes@, classes@.len() as int) {
            Ok(v) => r is Ok && schema_views(r->Ok_0@) == v,
            Err(e) => r == Err::<Vec<Vec<FlatProp>>, FlattenError>(e),
        },
{
    let mut out: Vec<Vec<FlatProp>> = Vec::new();
    let mut i: usize = 0;
    assert(schema_views(out@) =~= Seq::<Seq<FlatPropView>>::empty());
    while i < classes.len()
        invariant
            i <= classes@.len(),
            classes_flatten(tables@, classes@, i as int) is Ok,
            schema_views(out@) == classes_flatten(tables@, classes@, i as int)->Ok_0,
        decreases classes@.len() - i,
    {
        match classes[i].flatten(tables) {
            Err(e) => {
                proof {
                    lemma_classes_prefix_err(tables@, classes@, i + 1, classes@.len() as int);
                }
                return Err(e);
            },
            Ok(f) => {
                let ghost before = schema_views(out@);
                out.push(f);
                assert(schema_views(out@) =~= before.push(flat_views(f@)));
            },
        }
        i = i + 1;
    }
    Ok(out)
}

impl ServerClass {
    /// Flattens the send table of this class.
    pub fn flatten(&self, tables: &Vec<PropSchema>) -> (r: Result<Vec<FlatProp>, FlattenError>)
        ensures
            match class_flatten(tables@, *self) {
                Ok(v) => r is Ok && flat_views(r->Ok_0@) == v,
                Err(e) => r == Err::<Vec<FlatProp>, FlattenError>(e),
            },
    {
        match find_table(tables, &self.data_table) {
            None => Err(FlattenError::UnknownTable),
            Some(k) => tables[k].flatten_props(tables),
        }
    }
}

} // verus!
