//! Message payloads: tagged values exchanged between mailboxes.

use vstd::prelude::*;

verus! {

/// The mathematical value of a payload.
pub enum PmtValue {
    Null,
    Bool(bool),
    Integer(int),
    /// A floating-point number, as the bits of its IEEE 754 double encoding.
    Float(u64),
    String(Seq<char>),
    Blob(Seq<u8>),
    Sequence(Seq<PmtValue>),
    Mapping(Seq<(Seq<char>, PmtValue)>),
}

/// A message payload. The set of variants is closed.
#[derive(Debug, PartialEq, Eq)]
pub enum Pmt {
    /// No value.
    Null,
    /// A truth value.
    Bool(bool),
    /// A signed integer.
    Integer(i64),
    /// A floating-point number, held as the bits of its IEEE 754 double
    /// encoding.
    Float(u64),
    /// Text.
    String(String),
    /// Raw bytes.
    Blob(Vec<u8>),
    /// Payloads in order.
    Sequence(Vec<Pmt>),
    /// Payloads by key, in insertion order.
    Mapping(Vec<(String, Pmt)>),
}

impl Pmt {
    /// The mathematical value of the payload.
    pub open spec fn view(&self) -> PmtValue
        decreases self,
    {
        match self {
            Pmt::Null => PmtValue::Null,
            Pmt::Bool(b) => PmtValue::Bool(*b),
            Pmt::Integer(i) => PmtValue::Integer(*i as int),
            Pmt::Float(bits) => PmtValue::Float(*bits),
            Pmt::String(s) => PmtValue::String(s@),
            Pmt::Blob(b) => PmtValue::Blob(b@),
            Pmt::Sequence(items) => PmtValue::Sequence(
                Seq::new(
                    items@.len(),
                    |i: int|
                        if 0 <= i < items@.len() {
                            items@[i].view()
                        } else {
                            PmtValue::Null
                        },
                ),
            ),
            Pmt::Mapping(entries) => PmtValue::Mapping(
                Seq::new(
                    entries@.len(),
                    |i: int|
                        if 0 <= i < entries@.len() {
                            (entries@[i].0@, entries@[i].1.view())
                        } else {
                            (Seq::empty(), PmtValue::Null)
                        },
                ),
            ),
        }
    }

    /// A copy of the payload with the same value.
    pub fn duplicate(&self) -> (r: Pmt)
        ensures
            r@ == self@,
        decreases self,
    {
        match self {
            Pmt::Null => Pmt::Null,
            Pmt::Bool(b) => Pmt::Bool(*b),
            Pmt::Integer(i) => Pmt::Integer(*i),
            Pmt::Float(bits) => Pmt::Float(*bits),
            Pmt::String(s) => Pmt::String(s.clone()),
            Pmt::Blob(b) => {
                let mut out: Vec<u8> = Vec::new();
                let mut i: usize = 0;
                while i < b.len()
                    invariant
                        i <= b.len(),
                        out@ == b@.subrange(0, i as int),
                    decreases b.len() - i,
                {
                    out.push(b[i]);
                    i += 1;
                    assert(out@ =~= b@.subrange(0, i as int));
                }
                assert(out@ =~= b@);
                Pmt::Blob(out)
            },
            Pmt::Sequence(items) => {
                let mut out: Vec<Pmt> = Vec::new();
                let mut i: usize = 0;
                while i < items.len()
                    invariant
                        i <= items.len(),
                        out@.len() == i,
                        self is Sequence,
                        self->Sequence_0 == *items,
                        forall|j: int| 0 <= j < i ==> (#[trigger] out@[j])@ == items@[j]@,
                    decreases items.len() - i,
                {
                    let item = &items[i];
                    out.push(item.duplicate());
                    i += 1;
                }
                let r = Pmt::Sequence(out);
                assert(r@ =~= self@) by {
                    assert(r@->Sequence_0 =~= self@->Sequence_0);
                }
                r
            },
            Pmt::Mapping(entries) => {
                let mut out: Vec<(String, Pmt)> = Vec::new();
                let mut i: usize = 0;
                while i < entries.len()
                    invariant
                        i <= entries.len(),
                        out@.len() == i,
                        self is Mapping,
                        self->Mapping_0 == *entries,
                        forall|j: int|
                            0 <= j < i ==> (#[trigger] out@[j]).0@ == entries@[j].0@ && out@[j].1@
                                == entries@[j].1@,
                    decreases entries.len() - i,
                {
                    let entry = &entries[i];
                    out.push((entry.0.clone(), entry.1.duplicate()));
                    i += 1;
                }
                let r = Pmt::Mapping(out);
                assert(r@ =~= self@) by {
                    assert(r@->Mapping_0 =~= self@->Mapping_0);
                }
                r
            },
        }
    }

    /// Whether the payload is `Null`.
    pub fn is_null(&self) -> (b: bool)
        ensures
            b == (self@ is Null),
    {
        match self {
            Pmt::Null => true,
            _ => false,
        }
    }
}

impl Clone for Pmt {
    fn clone(&self) -> (r: Pmt)
        ensures
            r@ == self@,
    {
        self.duplicate()
    }
}

} // verus!
