use vstd::prelude::*;

use crate::sendprop::{FlatProp, PropIdentifier, PropKind};

verus! {

/// The identity of a live game object.
#[derive(Clone, Copy, Debug, PartialEq, Eq, Hash, Structural)]
pub struct EntityId(pub u32);

/// How an entity's visibility changed in a tick.
#[derive(Clone, Copy, Debug, PartialEq, Eq, Hash, Structural)]
pub enum Pvs {
    /// No change; the delta is incremental.
    Preserve,
    /// Newly visible; the delta is a full baseline.
    Enter,
    /// Left the visible set.
    Leave,
    /// Removed; its identity may be reused.
    Delete,
}

/// A three-component vector, each component an IEEE-754 single-precision
/// bit pattern.
#[derive(Clone, Copy, Debug, PartialEq, Eq, Hash, Structural)]
pub struct Vector {
    pub x: u32,
    pub y: u32,
    pub z: u32,
}

/// A decoded property value. Floating-point values are carried as their
/// IEEE-754 single-precision bit patterns.
#[derive(Debug)]
pub enum PropValue {
    Integer(i64),
    Float(u32),
    Vector(Vector),
    VectorXY(u32, u32),
    String(String),
    Array(Vec<PropValue>),
}

/// Whether a value carries the tag that a declared kind calls for.
pub open spec fn value_fits(kind: PropKind, value: PropValue) -> bool {
    match value {
        PropValue::Integer(_) => kind == PropKind::Int,
        PropValue::Float(_) => kind == PropKind::Float,
        PropValue::Vector(_) => kind == PropKind::Vector,
        PropValue::VectorXY(_, _) => kind == PropKind::VectorXY,
        PropValue::String(_) => kind == PropKind::String,
        PropValue::Array(_) => kind == PropKind::Array,
    }
}

fn fits(kind: PropKind, value: &PropValue) -> (r: bool)
    ensures
        r == value_fits(kind, *value),
{
    match value {
        PropValue::Integer(_) => kind == PropKind::Int,
        PropValue::Float(_) => kind == PropKind::Float,
        PropValue::Vector(_) => kind == PropKind::Vector,
        PropValue::VectorXY(_, _) => kind == PropKind::VectorXY,
        PropValue::String(_) => kind == PropKind::String,
        PropValue::Array(_) => kind == PropKind::Array,
    }
}

/// One property value of an entity update, addressed by identifier.
#[derive(Debug)]
pub struct SendProp {
    pub identifier: PropIdentifier,
    pub value: PropValue,
}

/// One entity of a tick's entity update.
#[derive(Debug)]
pub struct PacketEntity {
    pub server_class: u16,
    pub entity_index: EntityId,
    pub props: Vec<SendProp>,
    pub pvs: Pvs,
}

/// Why a wire delta does not decode against a schema.
#[derive(Clone, Copy, Debug, PartialEq, Eq, Structural)]
pub enum DecodeError {
    /// An entry names a position past the end of the schema.
    IndexOutOfRange,
    /// An entry does not come after the entry before it in schema order.
    OutOfOrder,
    /// A value's tag differs from the kind its definition declares.
    KindMismatch,
    /// An entering entity's delta does not cover the whole schema.
    IncompleteBaseline,
}

/// The error of the first bad entry among the first `n` of `delta`.
pub open spec fn entry_error(schema: Seq<FlatProp>, delta: Seq<(usize, PropValue)>, n: int) -> Option<
    DecodeError,
>
    decreases n,
{
    if n <= 0 {
        None
    } else {
        match entry_error(schema, delta, n - 1) {
            Some(e) => Some(e),
            None => {
                let (idx, value) = delta[n - 1];
                if idx >= schema.len() {
                    Some(DecodeError::IndexOutOfRange)
                } else if n >= 2 && idx <= delta[n - 2].0 {
                    Some(DecodeError::OutOfOrder)
                } else if !value_fits(schema[idx as int].kind, value) {
                    Some(DecodeError::KindMismatch)
                } else {
                    None
                }
            },
        }
    }
}

/// Why `delta` fails to decode, if it does: its first bad entry, else an
/// entering entity whose delta leaves part of the schema out.
pub open spec fn decode_error(schema: Seq<FlatProp>, pvs: Pvs, delta: Seq<(usize, PropValue)>) -> Option<
    DecodeError,
> {
    match entry_error(schema, delta, delta.len() as int) {
        Some(e) => Some(e),
        None => if pvs == Pvs::Enter && delta.len() != schema.len() {
            Some(DecodeError::IncompleteBaseline)
        } else {
            None
        },
    }
}

proof fn lemma_entries_ok(schema: Seq<FlatProp>, delta: Seq<(usize, PropValue)>, n: int)
    requires
        0 <= n <= delta.len(),
        entry_error(schema, delta, n) is None,
    ensures
        forall|i: int| 0 <= i < n ==> (#[trigger] delta[i]).0 < schema.len(),
        forall|i: int| 0 <= i < n ==> value_fits(schema[(#[trigger] delta[i]).0 as int].kind, delta[i].1),
        forall|i: int, j: int| 0 <= i < j < n ==> (#[trigger] delta[i]).0 < (#[trigger] delta[j]).0,
    decreases n,
{
    if n > 0 {
        lemma_entries_ok(schema, delta, n - 1);
    }
}

proof fn lemma_entry_error_prefix(schema: Seq<FlatProp>, delta: Seq<(usize, PropValue)>, m: int, n: int)
    requires
        0 <= m <= n,
        entry_error(schema, delta, m) is Some,
    ensures
        entry_error(schema, delta, n) == entry_error(schema, delta, m),
    decreases n - m,
{
    if n > m {
        lemma_entry_error_prefix(schema, delta, m, n - 1);
    }
}

proof fn lemma_full_cover(s: Seq<(usize, PropValue)>, n: int)
    requires
        s.len() == n,
        forall|i: int| 0 <= i < n ==> (#[trigger] s[i]).0 < n,
        forall|i: int, j: int| 0 <= i < j < n ==> (#[trigger] s[i]).0 < (#[trigger] s[j]).0,
    ensures
        forall|i: int| 0 <= i < n ==> (#[trigger] s[i]).0 == i,
{
    assert forall|i: int| 0 <= i < n implies (#[trigger] s[i]).0 >= i by {
        lemma_lower(s, n, i);
    }
    assert forall|i: int| 0 <= i < n implies (#[trigger] s[i]).0 <= i by {
        lemma_upper(s, n, i);
    }
}

proof fn lemma_lower(s: Seq<(usize, PropValue)>, n: int, i: int)
    requires
        0 <= i < n == s.len(),
        forall|a: int, b: int| 0 <= a < b < n ==> (#[trigger] s[a]).0 < (#[trigger] s[b]).0,
    ensures
        s[i].0 >= i,
    decreases i,
{
    if i > 0 {
        lemma_lower(s, n, i - 1);
    }
}

proof fn lemma_upper(s: Seq<(usize, PropValue)>, n: int, i: int)
    requires
        0 <= i < n == s.len(),
        forall|a: int| 0 <= a < n ==> (#[trigger] s[a]).0 < n,
        forall|a: int, b: int| 0 <= a < b < n ==> (#[trigger] s[a]).0 < (#[trigger] s[b]).0,
    ensures
        s[i].0 <= i,
    decreases n - i,
{
    if i < n - 1 {
        lemma_upper(s, n, i + 1);
    }
}

/// Decodes one entity of a tick against its class's flattened schema. The
/// delta lists `(position in schema, value)` pairs in schema order; an
/// entering entity's delta must cover the whole schema.
pub fn decode_entity(
    schema: &Vec<FlatProp>,
    server_class: u16,
    entity_index: EntityId,
    pvs: Pvs,
    delta: Vec<(usize, PropValue)>,
) -> (r: Result<PacketEntity, DecodeError>)
    ensures
        match decode_error(schema@, pvs, delta@) {
            Some(e) => r == Err::<PacketEntity, DecodeError>(e),
            None => r matches Ok(entity) && entity.server_class == server_class
                && entity.entity_index == entity_index && entity.pvs == pvs
                && entity.props@.len() == delta@.len() && forall|i: int|
                0 <= i < delta@.len() ==> (#[trigger] entity.props@[i]).identifier
                    == schema@[delta@[i].0 as int].identifier && entity.props@[i].value
                    == delta@[i].1,
        },
        r is Ok && pvs == Pvs::Enter ==> r->Ok_0.props@.len() == schema@.len() && forall|i: int|
            0 <= i < schema@.len() ==> (#[trigger] r->Ok_0.props@[i]).identifier
                == schema@[i].identifier,
{
    let ghost d = delta@;
    let mut i: usize = 0;
    while i < delta.len()
        invariant
            d == delta@,
            i <= d.len(),
            entry_error(schema@, d, i as int) is None,
        decreases d.len() - i,
    {
        let idx = delta[i].0;
        if idx >= schema.len() {
            proof {
                lemma_entry_error_prefix(schema@, d, i + 1, d.len() as int);
            }
            return Err(DecodeError::IndexOutOfRange);
        }
        if i >= 1 && idx <= delta[i - 1].0 {
            proof {
                lemma_entry_error_prefix(schema@, d, i + 1, d.len() as int);
            }
            return Err(DecodeError::OutOfOrder);
        }
        if !fits(schema[idx].kind, &delta[i].1) {
            proof {
                lemma_entry_error_prefix(schema@, d, i + 1, d.len() as int);
            }
            return Err(DecodeError::KindMismatch);
        }
        i = i + 1;
    }
    if pvs == Pvs::Enter && delta.len() != schema.len() {
        return Err(DecodeError::IncompleteBaseline);
    }
    proof {
        lemma_entries_ok(schema@, d, d.len() as int);
    }
    let mut rest = delta;
    let mut props: Vec<SendProp> = Vec::new();
    while rest.len() > 0
        invariant
            props@.len() + rest@.len() == d.len(),
            rest@ == d.subrange(props@.len() as int, d.len() as int),
            forall|i: int| 0 <= i < d.len() ==> (#[trigger] d[i]).0 < schema@.len(),
            forall|i: int|
                0 <= i < props@.len() ==> (#[trigger] props@[i]).identifier == schema@[d[i].0 as int].identifier
                    && props@[i].value == d[i].1,
        decreases rest@.len(),
    {
        let ghost k = props@.len() as int;
        let (idx, value) = rest.remove(0);
        assert(d[k] == (idx, value));
        props.push(SendProp { identifier: schema[idx].identifier, value });
        assert(rest@ =~= d.subrange(k + 1, d.len() as int));
    }
    proof {
        if pvs == Pvs::Enter {
            lemma_full_cover(d, d.len() as int);
        }
    }
    Ok(PacketEntity { server_class, entity_index, props, pvs })
}

} // verus!
