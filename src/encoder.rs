//! Encoding structured values into tagged bytes.
//!
//! A structured value is handed to an `Encoder` as a stream of events: its
//! scalar leaves, the start of each container, and the bounds of each map key.
//! Containers add no wrapper of their own: the output is the tagged form of
//! the scalar leaves, in the order given. A map key must be exactly one
//! scalar; anything else fails the whole encoding with `BadKey`.
//!
//! Serialising runs separately from collecting the leaves, so that only the
//! cheap byte stage is repeated when the output buffer has to grow.
use vstd::prelude::*;
use vstd::string::StringSliceAdditionalSpecFns;
use crate::sys::ErrorCode;
use crate::value::{
    TaggedValue,
    Atom,
    atoms_of,
    atom_wf,
    encode_atoms,
    parse_all,
    write_all,
    lemma_pow256_values,
    lemma_encode_atom_len,
    lemma_encode_atoms_push,
    lemma_encode_atoms_prefix_len,
    lemma_parse_all_encode,
};

verus! {

/// Why an encoding failed.
#[derive(Clone, Copy, Debug, PartialEq, Eq, Structural)]
pub enum EncoderError {
    /// The output did not fit in the largest buffer allowed.
    FormatError,
    /// A map key was not a single scalar value.
    BadKey,
}

/// A syntax error found while parsing, or a failure of the input source.
#[derive(Clone, Copy, Debug, PartialEq, Eq)]
pub enum ParserError {
    /// The failure, then the line and column where it was found.
    SyntaxError(ErrorCode, usize, usize),
    /// The input source failed, with a description.
    IoError(&'static str),
}

/// Why decoding into a structured value failed.
#[derive(Clone, Debug, PartialEq, Eq)]
pub enum DecoderError {
    ParseError(ParserError),
    /// What was expected, then what was found.
    ExpectedError(String, String),
    MissingFieldError(String),
    UnknownVariantError(String),
    ApplicationError(String),
}

/// The size of the first output buffer tried.
pub const INITIAL_CAPACITY: usize = 1024;

/// How many times the output buffer may double before encoding gives up.
pub const MAX_DOUBLINGS: usize = 20;

/// The largest output buffer tried: `INITIAL_CAPACITY` doubled `MAX_DOUBLINGS` times.
pub const MAX_CAPACITY: usize = 1073741824;

/// The buffer size tried after `r` doublings.
pub open spec fn capacity_after(r: nat) -> int
    decreases r,
{
    if r == 0 {
        INITIAL_CAPACITY as int
    } else {
        2 * capacity_after((r - 1) as nat)
    }
}

proof fn lemma_capacity_after(r: nat)
    requires
        r <= MAX_DOUBLINGS,
    ensures
        INITIAL_CAPACITY <= capacity_after(r) <= MAX_CAPACITY,
        r == MAX_DOUBLINGS ==> capacity_after(r) == MAX_CAPACITY,
        r < MAX_DOUBLINGS ==> 2 * capacity_after(r) <= MAX_CAPACITY,
    decreases MAX_DOUBLINGS - r,
{
    reveal_with_fuel(capacity_after, 21);
    if r < MAX_DOUBLINGS {
        lemma_capacity_after(r + 1);
    }
}

/// A copy of `b`.
fn copy_bytes(b: &[u8]) -> (r: Vec<u8>)
    ensures
        r@ == b@,
{
    let mut out: Vec<u8> = Vec::with_capacity(b.len());
    let mut i: usize = 0;
    while i < b.len()
        invariant
            i <= b@.len(),
            out@ == b@.take(i as int),
        decreases b@.len() - i,
    {
        out.push(b[i]);
        i = i + 1;
        assert(out@ =~= b@.take(i as int));
    }
    assert(b@.take(i as int) =~= b@);
    out
}

/// Relies on `Vec::shrink_to_fit`: it gives back spare capacity and leaves the
/// contents as they are.
#[verifier::external_body]
fn trim(b: &mut Vec<u8>)
    ensures
        final(b)@ == old(b)@,
{
    b.shrink_to_fit()
}

/// The tagged form of `values`. The output buffer starts at
/// `INITIAL_CAPACITY` bytes and doubles on each overflow; the result holds
/// exactly the encoded bytes. Fails with `FormatError` exactly when the
/// encoding is longer than `MAX_CAPACITY`.
pub fn encode(values: &Vec<TaggedValue>) -> (r: Result<Vec<u8>, EncoderError>)
    ensures
        match r {
            Ok(b) => b@ == encode_atoms(atoms_of(values@)) && b@.len() <= MAX_CAPACITY,
            Err(e) => e == EncoderError::FormatError && encode_atoms(atoms_of(values@)).len()
                > MAX_CAPACITY,
        },
{
    let mut size: usize = INITIAL_CAPACITY;
    let mut round: usize = 0;
    loop
        invariant
            round <= MAX_DOUBLINGS,
            size == capacity_after(round as nat),
        decreases MAX_DOUBLINGS - round,
    {
        proof {
            lemma_capacity_after(round as nat);
            lemma_pow256_values();
        }
        match write_all(values, size) {
            Ok(b) => {
                let mut b = b;
                trim(&mut b);
                return Ok(b);
            },
            Err(_) => {},
        }
        if round == MAX_DOUBLINGS {
            return Err(EncoderError::FormatError);
        }
        size = size * 2;
        round = round + 1;
    }
}

/// Whatever `encode` accepts decodes back to the same values, in the same
/// order: for every sequence whose encoding fits in `MAX_CAPACITY` bytes,
/// parsing the encoding yields exactly that sequence.
pub proof fn lemma_decode_encode(vs: Seq<Atom>)
    requires
        encode_atoms(vs).len() <= MAX_CAPACITY,
    ensures
        parse_all(encode_atoms(vs)) == Ok::<Seq<Atom>, ErrorCode>(vs),
{
    assert forall|i: int| 0 <= i < vs.len() implies atom_wf(#[trigger] vs[i]) by {
        lemma_encode_atoms_push(vs.take(i), vs[i]);
        assert(vs.take(i).push(vs[i]) =~= vs.take(i + 1));
        lemma_encode_atoms_prefix_len(vs, i + 1);
        lemma_encode_atom_len(vs[i]);
        lemma_pow256_values();
    }
    lemma_parse_all_encode(vs);
}

/// What adding the leaf `a` does: after a failure nothing changes and the
/// failure is returned again; a second scalar inside a map key fails with
/// `BadKey`; otherwise the leaf is added.
pub open spec fn emitted(pre: Encoder, post: Encoder, r: Result<(), EncoderError>, a: Atom) -> bool {
    match pre.spec_failed() {
        Some(e) => r == Err::<(), EncoderError>(e) && post == pre,
        None => if pre.spec_in_key() && pre.spec_key_filled() {
            r == Err::<(), EncoderError>(EncoderError::BadKey)
                && post.spec_failed() == Some(EncoderError::BadKey)
                && post.spec_leaves() == pre.spec_leaves()
        } else {
            r == Ok::<(), EncoderError>(())
                && post.spec_failed().is_none()
                && post.spec_leaves() == pre.spec_leaves().push(a)
                && post.spec_in_key() == pre.spec_in_key()
                && post.spec_key_filled() == pre.spec_in_key()
        },
    }
}

/// Collects the scalar leaves of a structured value, in the order given.
pub struct Encoder {
    leaves: Vec<TaggedValue>,
    in_key: bool,
    key_filled: bool,
    failed: Option<EncoderError>,
}

impl Encoder {
    /// The leaves collected so far.
    pub closed spec fn spec_leaves(&self) -> Seq<Atom> {
        atoms_of(self.leaves@)
    }

    /// Whether the events so far are inside a map key.
    pub closed spec fn spec_in_key(&self) -> bool {
        self.in_key
    }

    /// Whether the map key being emitted already has its scalar.
    pub closed spec fn spec_key_filled(&self) -> bool {
        self.key_filled
    }

    /// The failure that ended this encoding, if any.
    pub closed spec fn spec_failed(&self) -> Option<EncoderError> {
        self.failed
    }

    pub closed spec fn wf(&self) -> bool {
        self.key_filled ==> self.in_key
    }

    /// An encoder with no leaves.
    pub fn new() -> (r: Encoder)
        ensures
            r.wf(),
            r.spec_leaves() == Seq::<Atom>::empty(),
            !r.spec_in_key(),
            r.spec_failed().is_none(),
    {
        Encoder::with_capacity(16)
    }

    /// An encoder with no leaves and room for `capacity` of them.
    pub fn with_capacity(capacity: usize) -> (r: Encoder)
        ensures
            r.wf(),
            r.spec_leaves() == Seq::<Atom>::empty(),
            !r.spec_in_key(),
            r.spec_failed().is_none(),
    {
        let r = Encoder { leaves: Vec::with_capacity(capacity), in_key: false, key_filled: false, failed: None };
        assert(r.spec_leaves() =~= Seq::<Atom>::empty());
        r
    }

    fn fail(&mut self, e: EncoderError) -> (r: Result<(), EncoderError>)
        ensures
            r == Err::<(), EncoderError>(e),
            final(self).failed == Some(e),
            final(self).leaves == old(self).leaves,
            final(self).in_key == old(self).in_key,
            final(self).key_filled == old(self).key_filled,
    {
        self.failed = Some(e);
        Err(e)
    }

    /// Adds one scalar leaf. Inside a map key that already has its scalar the
    /// key is not a scalar, and the encoding fails with `BadKey`. After a
    /// failure nothing changes and the failure is returned again.
    pub fn emit(&mut self, v: TaggedValue) -> (r: Result<(), EncoderError>)
        requires
            old(self).wf(),
        ensures
            final(self).wf(),
            emitted(*old(self), *final(self), r, v@),
    {
        if let Some(e) = self.failed {
            return Err(e);
        }
        if self.in_key && self.key_filled {
            return self.fail(EncoderError::BadKey);
        }
        let ghost before = self.leaves@;
        self.leaves.push(v);
        if self.in_key {
            self.key_filled = true;
        }
        assert(atoms_of(self.leaves@) =~= atoms_of(before).push(v@));
        Ok(())
    }

    /// Adds a null.
    pub fn emit_nil(&mut self) -> (r: Result<(), EncoderError>)
        requires
            old(self).wf(),
        ensures
            final(self).wf(),
            emitted(*old(self), *final(self), r, Atom::Null),
    {
        self.emit(TaggedValue::Null)
    }

    /// Adds a boolean.
    pub fn emit_bool(&mut self, v: bool) -> (r: Result<(), EncoderError>)
        requires
            old(self).wf(),
        ensures
            final(self).wf(),
            emitted(*old(self), *final(self), r, Atom::Bool(v)),
    {
        self.emit(TaggedValue::Bool(v))
    }

    /// Adds an unsigned byte.
    pub fn emit_u8(&mut self, v: u8) -> (r: Result<(), EncoderError>)
        requires
            old(self).wf(),
        ensures
            final(self).wf(),
            emitted(*old(self), *final(self), r, Atom::UByte(v)),
    {
        self.emit(TaggedValue::UByte(v))
    }

    /// Adds an unsigned 16-bit integer.
    pub fn emit_u16(&mut self, v: u16) -> (r: Result<(), EncoderError>)
        requires
            old(self).wf(),
        ensures
            final(self).wf(),
            emitted(*old(self), *final(self), r, Atom::UShort(v)),
    {
        self.emit(TaggedValue::UShort(v))
    }

    /// Adds an unsigned 32-bit integer.
    pub fn emit_u32(&mut self, v: u32) -> (r: Result<(), EncoderError>)
        requires
            old(self).wf(),
        ensures
            final(self).wf(),
            emitted(*old(self), *final(self), r, Atom::UInt(v)),
    {
        self.emit(TaggedValue::UInt(v))
    }

    /// Adds an unsigned 64-bit integer.
    pub fn emit_u64(&mut self, v: u64) -> (r: Result<(), EncoderError>)
        requires
            old(self).wf(),
        ensures
            final(self).wf(),
            emitted(*old(self), *final(self), r, Atom::ULong(v)),
    {
        self.emit(TaggedValue::ULong(v))
    }

    /// Adds a `usize`, as an unsigned 64-bit integer.
    pub fn emit_usize(&mut self, v: usize) -> (r: Result<(), EncoderError>)
        requires
            old(self).wf(),
        ensures
            final(self).wf(),
            emitted(*old(self), *final(self), r, Atom::ULong(v as u64)),
    {
        self.emit(TaggedValue::ULong(v as u64))
    }

    /// Adds a signed byte.
    pub fn emit_i8(&mut self, v: i8) -> (r: Result<(), EncoderError>)
        requires
            old(self).wf(),
        ensures
            final(self).wf(),
            emitted(*old(self), *final(self), r, Atom::Byte(v)),
    {
        self.emit(TaggedValue::Byte(v))
    }

    /// Adds a signed 16-bit integer.
    pub fn emit_i16(&mut self, v: i16) -> (r: Result<(), EncoderError>)
        requires
            old(self).wf(),
        ensures
            final(self).wf(),
            emitted(*old(self), *final(self), r, Atom::Short(v)),
    {
        self.emit(TaggedValue::Short(v))
    }

    /// Adds a signed 32-bit integer.
    pub fn emit_i32(&mut self, v: i32) -> (r: Result<(), EncoderError>)
        requires
            old(self).wf(),
        ensures
            final(self).wf(),
            emitted(*old(self), *final(self), r, Atom::Int(v)),
    {
        self.emit(TaggedValue::Int(v))
    }

    /// Adds a signed 64-bit integer.
    pub fn emit_i64(&mut self, v: i64) -> (r: Result<(), EncoderError>)
        requires
            old(self).wf(),
        ensures
            final(self).wf(),
            emitted(*old(self), *final(self), r, Atom::Long(v)),
    {
        self.emit(TaggedValue::Long(v))
    }

    /// Adds an `isize`, as a signed 64-bit integer.
    pub fn emit_isize(&mut self, v: isize) -> (r: Result<(), EncoderError>)
        requires
            old(self).wf(),
        ensures
            final(self).wf(),
            emitted(*old(self), *final(self), r, Atom::Long(v as i64)),
    {
        self.emit(TaggedValue::Long(v as i64))
    }

    /// Adds a 32-bit float, given by its bit pattern.
    pub fn emit_f32_bits(&mut self, bits: u32) -> (r: Result<(), EncoderError>)
        requires
            old(self).wf(),
        ensures
            final(self).wf(),
            emitted(*old(self), *final(self), r, Atom::Float(bits)),
    {
        self.emit(TaggedValue::Float(bits))
    }

    /// Adds a 64-bit float, given by its bit pattern.
    pub fn emit_f64_bits(&mut self, bits: u64) -> (r: Result<(), EncoderError>)
        requires
            old(self).wf(),
        ensures
            final(self).wf(),
            emitted(*old(self), *final(self), r, Atom::Double(bits)),
    {
        self.emit(TaggedValue::Double(bits))
    }

    /// Adds a character, as its code point.
    pub fn emit_char(&mut self, v: char) -> (r: Result<(), EncoderError>)
        requires
            old(self).wf(),
        ensures
            final(self).wf(),
            emitted(*old(self), *final(self), r, Atom::Char(v as u32)),
    {
        self.emit(TaggedValue::Char(v as u32))
    }

    /// Adds an absent optional value, as a null.
    pub fn emit_option_none(&mut self) -> (r: Result<(), EncoderError>)
        requires
            old(self).wf(),
        ensures
            final(self).wf(),
            emitted(*old(self), *final(self), r, Atom::Null),
    {
        self.emit(TaggedValue::Null)
    }

    /// Adds a string, as its UTF-8 bytes.
    pub fn emit_str(&mut self, s: &str) -> (r: Result<(), EncoderError>)
        requires
            old(self).wf(),
        ensures
            final(self).wf(),
            emitted(*old(self), *final(self), r, Atom::Str(s.spec_bytes())),
    {
        let b = s.as_bytes();
        let v = copy_bytes(b);
        self.emit(TaggedValue::Str(v))
    }

    /// Adds a binary value.
    pub fn emit_bytes(&mut self, b: &[u8]) -> (r: Result<(), EncoderError>)
        requires
            old(self).wf(),
        ensures
            final(self).wf(),
            emitted(*old(self), *final(self), r, Atom::Binary(b@)),
    {
        let v = copy_bytes(b);
        self.emit(TaggedValue::Binary(v))
    }

    /// Marks the start of a container: a struct, tuple, sequence, map or enum
    /// variant with fields. It adds no leaf; inside a map key it fails with
    /// `BadKey`, since the key is then not a scalar.
    pub fn emit_container(&mut self) -> (r: Result<(), EncoderError>)
        requires
            old(self).wf(),
        ensures
            final(self).wf(),
            final(self).spec_leaves() == old(self).spec_leaves(),
            match old(self).spec_failed() {
                Some(e) => r == Err::<(), EncoderError>(e) && *final(self) == *old(self),
                None => if old(self).spec_in_key() {
                    r == Err::<(), EncoderError>(EncoderError::BadKey)
                        && final(self).spec_failed() == Some(EncoderError::BadKey)
                } else {
                    r == Ok::<(), EncoderError>(()) && *final(self) == *old(self)
                },
            },
    {
        if let Some(e) = self.failed {
            return Err(e);
        }
        if self.in_key {
            return self.fail(EncoderError::BadKey);
        }
        Ok(())
    }

    /// Marks the start of a map key.
    pub fn emit_map_elt_key_start(&mut self) -> (r: Result<(), EncoderError>)
        requires
            old(self).wf(),
        ensures
            final(self).wf(),
            final(self).spec_leaves() == old(self).spec_leaves(),
            match old(self).spec_failed() {
                Some(e) => r == Err::<(), EncoderError>(e) && *final(self) == *old(self),
                None => if old(self).spec_in_key() {
                    r == Err::<(), EncoderError>(EncoderError::BadKey)
                        && final(self).spec_failed() == Some(EncoderError::BadKey)
                } else {
                    r == Ok::<(), EncoderError>(())
                        && final(self).spec_failed().is_none()
                        && final(self).spec_in_key()
                        && !final(self).spec_key_filled()
                },
            },
    {
        if let Some(e) = self.failed {
            return Err(e);
        }
        if self.in_key {
            return self.fail(EncoderError::BadKey);
        }
        self.in_key = true;
        self.key_filled = false;
        Ok(())
    }

    /// Marks the end of a map key, which must have received exactly one
    /// scalar; a key with none fails with `BadKey`.
    pub fn emit_map_elt_key_end(&mut self) -> (r: Result<(), EncoderError>)
        requires
            old(self).wf(),
        ensures
            final(self).wf(),
            final(self).spec_leaves() == old(self).spec_leaves(),
            match old(self).spec_failed() {
                Some(e) => r == Err::<(), EncoderError>(e) && *final(self) == *old(self),
                None => if old(self).spec_in_key() && old(self).spec_key_filled() {
                    r == Ok::<(), EncoderError>(())
                        && final(self).spec_failed().is_none()
                        && !final(self).spec_in_key()
                } else {
                    r == Err::<(), EncoderError>(EncoderError::BadKey)
                        && final(self).spec_failed() == Some(EncoderError::BadKey)
                },
            },
    {
        if let Some(e) = self.failed {
            return Err(e);
        }
        if !(self.in_key && self.key_filled) {
            return self.fail(EncoderError::BadKey);
        }
        self.in_key = false;
        self.key_filled = false;
        Ok(())
    }

    /// The tagged form of the leaves collected, grown as `encode` does; the
    /// first failure of the event stream, if there was one.
    pub fn finish(&self) -> (r: Result<Vec<u8>, EncoderError>)
        ensures
            match self.spec_failed() {
                Some(e) => r == Err::<Vec<u8>, EncoderError>(e),
                None => match r {
                    Ok(b) => b@ == encode_atoms(self.spec_leaves()) && b@.len() <= MAX_CAPACITY,
                    Err(e) => e == EncoderError::FormatError && encode_atoms(self.spec_leaves()).len()
                        > MAX_CAPACITY,
                },
            },
    {
        if let Some(e) = self.failed {
            return Err(e);
        }
        encode(&self.leaves)
    }
}

} // verus!
