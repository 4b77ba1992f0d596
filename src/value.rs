//! Scalar wire values and their self-describing tagged byte form.
//!
//! Each value is written as a one-byte constructor code followed by its
//! payload, most significant byte first. Small integers, strings and binaries
//! use the compact constructors where the value allows.
use vstd::prelude::*;
use crate::sys::ErrorCode;

verus! {

/// One scalar wire value. Floating-point values are carried as their IEEE-754
/// bit patterns and characters as their code points.
#[derive(Clone, Debug, PartialEq, Eq)]
pub enum TaggedValue {
    Null,
    Bool(bool),
    UByte(u8),
    UShort(u16),
    UInt(u32),
    ULong(u64),
    Byte(i8),
    Short(i16),
    Int(i32),
    Long(i64),
    Float(u32),
    Double(u64),
    Char(u32),
    Str(Vec<u8>),
    Binary(Vec<u8>),
}

/// The mathematical content of a `TaggedValue`.
pub enum Atom {
    Null,
    Bool(bool),
    UByte(u8),
    UShort(u16),
    UInt(u32),
    ULong(u64),
    Byte(i8),
    Short(i16),
    Int(i32),
    Long(i64),
    Float(u32),
    Double(u64),
    Char(u32),
    Str(Seq<u8>),
    Binary(Seq<u8>),
}

impl View for TaggedValue {
    type V = Atom;

    open spec fn view(&self) -> Atom {
        match self {
            TaggedValue::Null => Atom::Null,
            TaggedValue::Bool(b) => Atom::Bool(*b),
            TaggedValue::UByte(x) => Atom::UByte(*x),
            TaggedValue::UShort(x) => Atom::UShort(*x),
            TaggedValue::UInt(x) => Atom::UInt(*x),
            TaggedValue::ULong(x) => Atom::ULong(*x),
            TaggedValue::Byte(x) => Atom::Byte(*x),
            TaggedValue::Short(x) => Atom::Short(*x),
            TaggedValue::Int(x) => Atom::Int(*x),
            TaggedValue::Long(x) => Atom::Long(*x),
            TaggedValue::Float(x) => Atom::Float(*x),
            TaggedValue::Double(x) => Atom::Double(*x),
            TaggedValue::Char(x) => Atom::Char(*x),
            TaggedValue::Str(b) => Atom::Str(b@),
            TaggedValue::Binary(b) => Atom::Binary(b@),
        }
    }
}

/// The contents of a sequence of values.
pub open spec fn atoms_of(vs: Seq<TaggedValue>) -> Seq<Atom> {
    vs.map_values(|v: TaggedValue| v@)
}

pub const CODE_NULL: u8 = 0x40;
pub const CODE_TRUE: u8 = 0x41;
pub const CODE_FALSE: u8 = 0x42;
pub const CODE_UINT0: u8 = 0x43;
pub const CODE_ULONG0: u8 = 0x44;
pub const CODE_UBYTE: u8 = 0x50;
pub const CODE_BYTE: u8 = 0x51;
pub const CODE_SMALLUINT: u8 = 0x52;
pub const CODE_SMALLULONG: u8 = 0x53;
pub const CODE_SMALLINT: u8 = 0x54;
pub const CODE_SMALLLONG: u8 = 0x55;
pub const CODE_BOOLEAN: u8 = 0x56;
pub const CODE_USHORT: u8 = 0x60;
pub const CODE_SHORT: u8 = 0x61;
pub const CODE_UINT: u8 = 0x70;
pub const CODE_INT: u8 = 0x71;
pub const CODE_FLOAT: u8 = 0x72;
pub const CODE_UTF32: u8 = 0x73;
pub const CODE_ULONG: u8 = 0x80;
pub const CODE_LONG: u8 = 0x81;
pub const CODE_DOUBLE: u8 = 0x82;
pub const CODE_VBIN8: u8 = 0xa0;
pub const CODE_STR8: u8 = 0xa1;
pub const CODE_VBIN32: u8 = 0xb0;
pub const CODE_STR32: u8 = 0xb1;

/// 256 to the power `n`: the number of values that `n` bytes can hold.
pub open spec fn pow256(n: nat) -> int
    decreases n,
{
    if n == 0 {
        1
    } else {
        256 * pow256((n - 1) as nat)
    }
}

/// The `n` low-order bytes of `x`, most significant first.
pub open spec fn be(x: int, n: nat) -> Seq<u8>
    decreases n,
{
    if n == 0 {
        Seq::empty()
    } else {
        be(x / 256, (n - 1) as nat).push((x % 256) as u8)
    }
}

/// The unsigned number that a big-endian byte string spells.
pub open spec fn from_be(s: Seq<u8>) -> int
    decreases s.len(),
{
    if s.len() == 0 {
        0
    } else {
        from_be(s.drop_last()) * 256 + s.last()
    }
}

/// The two's-complement reading, on `n` bytes, of a signed number.
pub open spec fn twos(x: int, n: nat) -> int {
    if x < 0 {
        x + pow256(n)
    } else {
        x
    }
}

/// The signed number whose two's-complement form on `n` bytes is `u`.
pub open spec fn signed_of(u: int, n: nat) -> int {
    if 2 * u >= pow256(n) {
        u - pow256(n)
    } else {
        u
    }
}

/// A constructor code followed by an unsigned payload of `n` bytes.
pub open spec fn fixed(code: u8, x: int, n: nat) -> Seq<u8> {
    seq![code] + be(x, n)
}

/// A variable-width value: the short form below 256 bytes, the long form above.
pub open spec fn variable(short: u8, long: u8, b: Seq<u8>) -> Seq<u8> {
    if b.len() < 256 {
        seq![short] + be(b.len() as int, 1) + b
    } else {
        seq![long] + be(b.len() as int, 4) + b
    }
}

/// The tagged byte form of one value.
pub open spec fn encode_atom(a: Atom) -> Seq<u8> {
    match a {
        Atom::Null => seq![CODE_NULL],
        Atom::Bool(b) => if b {
            seq![CODE_TRUE]
        } else {
            seq![CODE_FALSE]
        },
        Atom::UByte(x) => fixed(CODE_UBYTE, x as int, 1),
        Atom::UShort(x) => fixed(CODE_USHORT, x as int, 2),
        Atom::UInt(x) => if x < 256 {
            fixed(CODE_SMALLUINT, x as int, 1)
        } else {
            fixed(CODE_UINT, x as int, 4)
        },
        Atom::ULong(x) => if x < 256 {
            fixed(CODE_SMALLULONG, x as int, 1)
        } else {
            fixed(CODE_ULONG, x as int, 8)
        },
        Atom::Byte(x) => fixed(CODE_BYTE, twos(x as int, 1), 1),
        Atom::Short(x) => fixed(CODE_SHORT, twos(x as int, 2), 2),
        Atom::Int(x) => if -128 <= x < 128 {
            fixed(CODE_SMALLINT, twos(x as int, 1), 1)
        } else {
            fixed(CODE_INT, twos(x as int, 4), 4)
        },
        Atom::Long(x) => if -128 <= x < 128 {
            fixed(CODE_SMALLLONG, twos(x as int, 1), 1)
        } else {
            fixed(CODE_LONG, twos(x as int, 8), 8)
        },
        Atom::Float(x) => fixed(CODE_FLOAT, x as int, 4),
        Atom::Double(x) => fixed(CODE_DOUBLE, x as int, 8),
        Atom::Char(x) => fixed(CODE_UTF32, x as int, 4),
        Atom::Str(b) => variable(CODE_STR8, CODE_STR32, b),
        Atom::Binary(b) => variable(CODE_VBIN8, CODE_VBIN32, b),
    }
}

/// The tagged byte form of a sequence of values, one after another.
pub open spec fn encode_atoms(s: Seq<Atom>) -> Seq<u8>
    decreases s.len(),
{
    if s.len() == 0 {
        Seq::empty()
    } else {
        encode_atoms(s.drop_last()) + encode_atom(s.last())
    }
}

/// A value whose length prefix, if any, fits in four bytes.
pub open spec fn atom_wf(a: Atom) -> bool {
    match a {
        Atom::Str(b) => b.len() < pow256(4),
        Atom::Binary(b) => b.len() < pow256(4),
        _ => true,
    }
}

/// Reads `n` payload bytes after the constructor code at the front of `s`.
pub open spec fn payload(s: Seq<u8>, n: nat) -> Option<int> {
    if s.len() >= 1 + n {
        Some(from_be(s.subrange(1, 1 + n as int)))
    } else {
        None
    }
}

/// Parses a fixed-width value whose payload has `n` bytes.
pub open spec fn parse_fixed(s: Seq<u8>, n: nat, mk: spec_fn(int) -> Atom) -> Result<
    (Atom, nat),
    ErrorCode,
> {
    match payload(s, n) {
        Some(u) => Ok((mk(u), 1 + n)),
        None => Err(ErrorCode::Underflow),
    }
}

/// Parses a variable-width value whose length prefix has `n` bytes.
pub open spec fn parse_variable(s: Seq<u8>, n: nat, is_str: bool) -> Result<(Atom, nat), ErrorCode> {
    match payload(s, n) {
        Some(len) => if s.len() >= 1 + n + len {
            let b = s.subrange(1 + n as int, 1 + n + len);
            Ok((if is_str { Atom::Str(b) } else { Atom::Binary(b) }, (1 + n + len) as nat))
        } else {
            Err(ErrorCode::Underflow)
        },
        None => Err(ErrorCode::Underflow),
    }
}

/// Parses the one value at the front of `s`: the value and how many bytes it took.
pub open spec fn parse_one(s: Seq<u8>) -> Result<(Atom, nat), ErrorCode> {
    if s.len() == 0 {
        Err(ErrorCode::Underflow)
    } else {
        let c = s[0];
        if c == CODE_NULL {
            Ok((Atom::Null, 1))
        } else if c == CODE_TRUE {
            Ok((Atom::Bool(true), 1))
        } else if c == CODE_FALSE {
            Ok((Atom::Bool(false), 1))
        } else if c == CODE_UINT0 {
            Ok((Atom::UInt(0), 1))
        } else if c == CODE_ULONG0 {
            Ok((Atom::ULong(0), 1))
        } else if c == CODE_BOOLEAN {
            parse_fixed(s, 1, |u: int| Atom::Bool(u != 0))
        } else if c == CODE_UBYTE {
            parse_fixed(s, 1, |u: int| Atom::UByte(u as u8))
        } else if c == CODE_BYTE {
            parse_fixed(s, 1, |u: int| Atom::Byte(signed_of(u, 1) as i8))
        } else if c == CODE_SMALLUINT {
            parse_fixed(s, 1, |u: int| Atom::UInt(u as u32))
        } else if c == CODE_SMALLULONG {
            parse_fixed(s, 1, |u: int| Atom::ULong(u as u64))
        } else if c == CODE_SMALLINT {
            parse_fixed(s, 1, |u: int| Atom::Int(signed_of(u, 1) as i32))
        } else if c == CODE_SMALLLONG {
            parse_fixed(s, 1, |u: int| Atom::Long(signed_of(u, 1) as i64))
        } else if c == CODE_USHORT {
            parse_fixed(s, 2, |u: int| Atom::UShort(u as u16))
        } else if c == CODE_SHORT {
            parse_fixed(s, 2, |u: int| Atom::Short(signed_of(u, 2) as i16))
        } else if c == CODE_UINT {
            parse_fixed(s, 4, |u: int| Atom::UInt(u as u32))
        } else if c == CODE_INT {
            parse_fixed(s, 4, |u: int| Atom::Int(signed_of(u, 4) as i32))
        } else if c == CODE_FLOAT {
            parse_fixed(s, 4, |u: int| Atom::Float(u as u32))
        } else if c == CODE_UTF32 {
            parse_fixed(s, 4, |u: int| Atom::Char(u as u32))
        } else if c == CODE_ULONG {
            parse_fixed(s, 8, |u: int| Atom::ULong(u as u64))
        } else if c == CODE_LONG {
            parse_fixed(s, 8, |u: int| Atom::Long(signed_of(u, 8) as i64))
        } else if c == CODE_DOUBLE {
            parse_fixed(s, 8, |u: int| Atom::Double(u as u64))
        } else if c == CODE_VBIN8 {
            parse_variable(s, 1, false)
        } else if c == CODE_STR8 {
            parse_variable(s, 1, true)
        } else if c == CODE_VBIN32 {
            parse_variable(s, 4, false)
        } else if c == CODE_STR32 {
            parse_variable(s, 4, true)
        } else {
            Err(ErrorCode::ArgErr)
        }
    }
}

/// Parses a whole byte string as a sequence of values.
pub open spec fn parse_all(s: Seq<u8>) -> Result<Seq<Atom>, ErrorCode>
    decreases s.len(),
{
    if s.len() == 0 {
        Ok(Seq::empty())
    } else {
        match parse_one(s) {
            Err(e) => Err(e),
            Ok((a, n)) => if 0 < n <= s.len() {
                match parse_all(s.subrange(n as int, s.len() as int)) {
                    Ok(rest) => Ok(seq![a] + rest),
                    Err(e) => Err(e),
                }
            } else {
                Err(ErrorCode::Generic)
            },
        }
    }
}

/// The length of the tagged form of a value, by its kind.
pub open spec fn atom_size(a: Atom) -> int {
    match a {
        Atom::Null => 1,
        Atom::Bool(_) => 1,
        Atom::UByte(_) => 2,
        Atom::Byte(_) => 2,
        Atom::UShort(_) => 3,
        Atom::Short(_) => 3,
        Atom::UInt(x) => if x < 256 { 2 } else { 5 },
        Atom::ULong(x) => if x < 256 { 2 } else { 9 },
        Atom::Int(x) => if -128 <= x < 128 { 2 } else { 5 },
        Atom::Long(x) => if -128 <= x < 128 { 2 } else { 9 },
        Atom::Float(_) => 5,
        Atom::Double(_) => 9,
        Atom::Char(_) => 5,
        Atom::Str(b) => if b.len() < 256 { 2 + b.len() as int } else { 5 + b.len() as int },
        Atom::Binary(b) => if b.len() < 256 { 2 + b.len() as int } else { 5 + b.len() as int },
    }
}

pub proof fn lemma_pow256_values()
    ensures
        pow256(1) == 256,
        pow256(2) == 65536,
        pow256(3) == 16777216,
        pow256(4) == 4294967296,
        pow256(8) == 18446744073709551616,
{
    assert(pow256(0) == 1);
    assert(pow256(1) == 256);
    assert(pow256(2) == 65536);
    assert(pow256(3) == 16777216);
    assert(pow256(4) == 4294967296);
    assert(pow256(5) == 1099511627776);
    assert(pow256(6) == 281474976710656);
    assert(pow256(7) == 72057594037927936);
    assert(pow256(8) == 18446744073709551616);
}

pub proof fn lemma_pow256_pos(n: nat)
    ensures
        pow256(n) > 0,
    decreases n,
{
    if n > 0 {
        lemma_pow256_pos((n - 1) as nat);
    }
}

pub proof fn lemma_be_len(x: int, n: nat)
    ensures
        be(x, n).len() == n,
    decreases n,
{
    if n > 0 {
        lemma_be_len(x / 256, (n - 1) as nat);
    }
}

/// Reading back the bytes of a number that fits gives the number.
pub proof fn lemma_from_be_be(x: int, n: nat)
    requires
        0 <= x < pow256(n),
    ensures
        from_be(be(x, n)) == x,
    decreases n,
{
    lemma_be_len(x, n);
    if n > 0 {
        let m = (n - 1) as nat;
        let p = pow256(m);
        assert(x / 256 < p) by (nonlinear_arith)
            requires
                0 <= x < 256 * p,
        ;
        lemma_from_be_be(x / 256, m);
        let s = be(x, n);
        assert(s.drop_last() =~= be(x / 256, m));
        assert(s.last() == (x % 256) as u8);
    }
}

pub proof fn lemma_encode_atom_len(a: Atom)
    ensures
        encode_atom(a).len() == atom_size(a),
{
    assert forall|x: int, n: nat| #[trigger] be(x, n).len() == n by {
        lemma_be_len(x, n);
    }
}

/// Appends the `n` low-order bytes of `x`, most significant first.
fn push_be(out: &mut Vec<u8>, x: u64, n: usize)
    ensures
        final(out)@ == old(out)@ + be(x as int, n as nat),
    decreases n,
{
    if n > 0 {
        push_be(out, x / 256, n - 1);
        out.push((x % 256) as u8);
        assert(final(out)@ =~= old(out)@ + be(x as int, n as nat));
    }
}

/// Appends `b` byte by byte.
fn push_all(out: &mut Vec<u8>, b: &Vec<u8>)
    ensures
        final(out)@ == old(out)@ + b@,
{
    let ghost start = out@;
    let mut i: usize = 0;
    while i < b.len()
        invariant
            i <= b.len(),
            out@ == start + b@.take(i as int),
        decreases b.len() - i,
    {
        out.push(b[i]);
        i = i + 1;
        assert(out@ =~= start + b@.take(i as int));
    }
    assert(b@.take(i as int) =~= b@);
}

/// The largest number that `n` bytes hold.
fn width_max(n: usize) -> (r: u64)
    requires
        n == 1 || n == 2 || n == 4 || n == 8,
    ensures
        r == pow256(n as nat) - 1,
{
    proof {
        lemma_pow256_values();
    }
    if n == 1 {
        0xff
    } else if n == 2 {
        0xffff
    } else if n == 4 {
        0xffff_ffff
    } else {
        0xffff_ffff_ffff_ffff
    }
}

/// The two's-complement form of `x` on `n` bytes.
fn twos_exec(x: i64, n: usize) -> (r: u64)
    requires
        n == 1 || n == 2 || n == 4 || n == 8,
        -pow256(n as nat) <= 2 * x < pow256(n as nat),
    ensures
        r as int == twos(x as int, n as nat),
        (r as int) < pow256(n as nat),
{
    let max = width_max(n);
    if x >= 0 {
        x as u64
    } else {
        let m: u64 = (-(x + 1)) as u64;
        max - m
    }
}

/// Appends the tagged form of `v`.
pub fn write_value(out: &mut Vec<u8>, v: &TaggedValue)
    requires
        atom_wf(v@),
    ensures
        final(out)@ == old(out)@ + encode_atom(v@),
{
    let ghost start = out@;
    proof {
        lemma_pow256_values();
    }
    match v {
        TaggedValue::Null => {
            out.push(CODE_NULL);
        },
        TaggedValue::Bool(b) => {
            if *b {
                out.push(CODE_TRUE);
            } else {
                out.push(CODE_FALSE);
            }
        },
        TaggedValue::UByte(x) => {
            out.push(CODE_UBYTE);
            push_be(out, *x as u64, 1);
        },
        TaggedValue::UShort(x) => {
            out.push(CODE_USHORT);
            push_be(out, *x as u64, 2);
        },
        TaggedValue::UInt(x) => {
            if *x < 256 {
                out.push(CODE_SMALLUINT);
                push_be(out, *x as u64, 1);
            } else {
                out.push(CODE_UINT);
                push_be(out, *x as u64, 4);
            }
        },
        TaggedValue::ULong(x) => {
            if *x < 256 {
                out.push(CODE_SMALLULONG);
                push_be(out, *x, 1);
            } else {
                out.push(CODE_ULONG);
                push_be(out, *x, 8);
            }
        },
        TaggedValue::Byte(x) => {
            out.push(CODE_BYTE);
            let u = twos_exec(*x as i64, 1);
            push_be(out, u, 1);
        },
        TaggedValue::Short(x) => {
            out.push(CODE_SHORT);
            let u = twos_exec(*x as i64, 2);
            push_be(out, u, 2);
        },
        TaggedValue::Int(x) => {
            if -128 <= *x && *x < 128 {
                out.push(CODE_SMALLINT);
                let u = twos_exec(*x as i64, 1);
                push_be(out, u, 1);
            } else {
                out.push(CODE_INT);
                let u = twos_exec(*x as i64, 4);
                push_be(out, u, 4);
            }
        },
        TaggedValue::Long(x) => {
            if -128 <= *x && *x < 128 {
                out.push(CODE_SMALLLONG);
                let u = twos_exec(*x, 1);
                push_be(out, u, 1);
            } else {
                out.push(CODE_LONG);
                let u = twos_exec(*x, 8);
                push_be(out, u, 8);
            }
        },
        TaggedValue::Float(x) => {
            out.push(CODE_FLOAT);
            push_be(out, *x as u64, 4);
        },
        TaggedValue::Double(x) => {
            out.push(CODE_DOUBLE);
            push_be(out, *x, 8);
        },
        TaggedValue::Char(x) => {
            out.push(CODE_UTF32);
            push_be(out, *x as u64, 4);
        },
        TaggedValue::Str(b) => {
            write_variable(out, CODE_STR8, CODE_STR32, b);
        },
        TaggedValue::Binary(b) => {
            write_variable(out, CODE_VBIN8, CODE_VBIN32, b);
        },
    }
    assert(out@ =~= start + encode_atom(v@));
}

/// Appends a length-prefixed byte string in its short or long form.
fn write_variable(out: &mut Vec<u8>, short: u8, long: u8, b: &Vec<u8>)
    requires
        b@.len() < pow256(4),
    ensures
        final(out)@ == old(out)@ + variable(short, long, b@),
{
    let ghost start = out@;
    let len = b.len();
    if len < 256 {
        out.push(short);
        push_be(out, len as u64, 1);
    } else {
        out.push(long);
        push_be(out, len as u64, 4);
    }
    push_all(out, b);
    assert(out@ =~= start + variable(short, long, b@));
}

/// Whether the tagged form of `v` fits in `room` bytes.
pub fn fits(v: &TaggedValue, room: usize) -> (r: bool)
    ensures
        r == (encode_atom(v@).len() <= room),
{
    proof {
        lemma_encode_atom_len(v@);
    }
    match v {
        TaggedValue::Null => room >= 1,
        TaggedValue::Bool(_) => room >= 1,
        TaggedValue::UByte(_) => room >= 2,
        TaggedValue::Byte(_) => room >= 2,
        TaggedValue::UShort(_) => room >= 3,
        TaggedValue::Short(_) => room >= 3,
        TaggedValue::UInt(x) => room >= if *x < 256 { 2 } else { 5 },
        TaggedValue::ULong(x) => room >= if *x < 256 { 2 } else { 9 },
        TaggedValue::Int(x) => room >= if -128 <= *x && *x < 128 { 2 } else { 5 },
        TaggedValue::Long(x) => room >= if -128 <= *x && *x < 128 { 2 } else { 9 },
        TaggedValue::Float(_) => room >= 5,
        TaggedValue::Double(_) => room >= 9,
        TaggedValue::Char(_) => room >= 5,
        TaggedValue::Str(b) => variable_fits(b.len(), room),
        TaggedValue::Binary(b) => variable_fits(b.len(), room),
    }
}

fn variable_fits(len: usize, room: usize) -> (r: bool)
    ensures
        r == ((if len < 256 { 2 + len } else { 5 + len }) <= room),
{
    if len < 256 {
        room >= 2 && len <= room - 2
    } else {
        room >= 5 && len <= room - 5
    }
}


pub proof fn lemma_encode_atoms_push(s: Seq<Atom>, a: Atom)
    ensures
        encode_atoms(s.push(a)) == encode_atoms(s) + encode_atom(a),
{
    assert(s.push(a).drop_last() =~= s);
}

/// The tagged form of a prefix is no longer than that of the whole.
pub proof fn lemma_encode_atoms_prefix_len(s: Seq<Atom>, j: int)
    requires
        0 <= j <= s.len(),
    ensures
        encode_atoms(s.take(j)).len() <= encode_atoms(s).len(),
    decreases s.len(),
{
    if j < s.len() {
        lemma_encode_atoms_prefix_len(s.drop_last(), j);
        assert(s.drop_last().take(j) =~= s.take(j));
    } else {
        assert(s.take(j) =~= s);
    }
}

/// Writes the tagged forms of `values` into a buffer of `cap` bytes; fails
/// with `Overflow`, and hands back nothing, where they do not fit.
pub fn write_all(values: &Vec<TaggedValue>, cap: usize) -> (r: Result<Vec<u8>, ErrorCode>)
    requires
        cap < pow256(4),
    ensures
        match r {
            Ok(b) => b@ == encode_atoms(atoms_of(values@)) && b@.len() <= cap,
            Err(e) => e == ErrorCode::Overflow && encode_atoms(atoms_of(values@)).len() > cap,
        },
{
    let mut out: Vec<u8> = Vec::with_capacity(cap);
    let mut i: usize = 0;
    while i < values.len()
        invariant
            i <= values.len(),
            cap < pow256(4),
            out@ == encode_atoms(atoms_of(values@.take(i as int))),
            out@.len() <= cap,
        decreases values.len() - i,
    {
        let v = &values[i];
        let room = cap - out.len();
        proof {
            lemma_encode_atoms_push(atoms_of(values@.take(i as int)), v@);
            assert(atoms_of(values@.take(i as int)).push(v@) =~= atoms_of(values@.take(i + 1)));
        }
        if !fits(v, room) {
            proof {
                lemma_encode_atoms_prefix_len(atoms_of(values@), i + 1);
                assert(atoms_of(values@).take(i + 1) =~= atoms_of(values@.take(i + 1)));
            }
            return Err(ErrorCode::Overflow);
        }
        proof {
            lemma_encode_atom_len(v@);
        }
        write_value(&mut out, v);
        i = i + 1;
    }
    assert(values@.take(i as int) =~= values@);
    Ok(out)
}


pub proof fn lemma_pow256_mono(a: nat, b: nat)
    requires
        a <= b,
    ensures
        pow256(a) <= pow256(b),
    decreases b,
{
    if a < b {
        lemma_pow256_mono(a, (b - 1) as nat);
        lemma_pow256_pos((b - 1) as nat);
    }
}

/// Reads the big-endian number in `s[start..start + n]`.
fn read_be(s: &[u8], start: usize, n: usize) -> (r: u64)
    requires
        n <= 8,
        start + n <= s@.len(),
    ensures
        r as int == from_be(s@.subrange(start as int, start + n)),
        (r as int) < pow256(n as nat),
{
    let slen = s.len();
    let mut acc: u64 = 0;
    let mut i: usize = 0;
    proof {
        lemma_pow256_values();
        assert(s@.subrange(start as int, start as int) =~= Seq::<u8>::empty());
    }
    while i < n
        invariant
            i <= n <= 8,
            start + n <= s@.len(),
            slen == s@.len(),
            acc as int == from_be(s@.subrange(start as int, start + i)),
            (acc as int) < pow256(i as nat),
        decreases n - i,
    {
        let b = s[start + i];
        proof {
            lemma_pow256_mono((i + 1) as nat, 8);
            lemma_pow256_values();
            let sub = s@.subrange(start as int, start + i + 1);
            assert(sub.drop_last() =~= s@.subrange(start as int, start + i));
            assert(sub.last() == b);
            assert(acc * 256 + b < pow256((i + 1) as nat)) by (nonlinear_arith)
                requires
                    acc < pow256(i as nat),
                    b < 256,
                    pow256((i + 1) as nat) == 256 * pow256(i as nat),
            ;
        }
        acc = acc * 256 + b as u64;
        i = i + 1;
    }
    acc
}

/// The signed number whose two's-complement form on `n` bytes is `u`.
fn signed_exec(u: u64, n: usize) -> (r: i64)
    requires
        n == 1 || n == 2 || n == 4 || n == 8,
        (u as int) < pow256(n as nat),
    ensures
        r as int == signed_of(u as int, n as nat),
{
    proof {
        lemma_pow256_values();
    }
    let max = width_max(n);
    if u > max / 2 {
        let m: u64 = max - u;
        -(m as i64) - 1
    } else {
        u as i64
    }
}

/// A copy of `s[a..b]`.
fn copy_range(s: &[u8], a: usize, b: usize) -> (r: Vec<u8>)
    requires
        a <= b <= s@.len(),
    ensures
        r@ == s@.subrange(a as int, b as int),
{
    let mut out: Vec<u8> = Vec::with_capacity(b - a);
    let mut i: usize = a;
    while i < b
        invariant
            a <= i <= b <= s@.len(),
            out@ == s@.subrange(a as int, i as int),
        decreases b - i,
    {
        out.push(s[i]);
        i = i + 1;
        assert(out@ =~= s@.subrange(a as int, i as int));
    }
    out
}

/// The payload number of `n` bytes after the code at `s[pos]`, where the input holds it.
fn read_payload(s: &[u8], pos: usize, n: usize) -> (r: Option<u64>)
    requires
        n <= 8,
        pos < s@.len(),
    ensures
        match r {
            Some(u) => payload(s@.subrange(pos as int, s@.len() as int), n as nat) == Some(u as int)
                && (u as int) < pow256(n as nat),
            None => payload(s@.subrange(pos as int, s@.len() as int), n as nat).is_none(),
        },
{
    let ghost t = s@.subrange(pos as int, s@.len() as int);
    if s.len() - pos > n {
        let u = read_be(s, pos + 1, n);
        assert(t.subrange(1, 1 + n as int) =~= s@.subrange(pos + 1, pos + 1 + n));
        Some(u)
    } else {
        None
    }
}

/// Parses a length-prefixed byte string whose prefix has `n` bytes.
fn read_variable(s: &[u8], pos: usize, n: usize) -> (r: Result<(Vec<u8>, usize), ErrorCode>)
    requires
        n == 1 || n == 4,
        pos < s@.len(),
    ensures
        ({
            let t = s@.subrange(pos as int, s@.len() as int);
            match r {
                Ok((b, k)) => parse_variable(t, n as nat, true) == Ok::<(Atom, nat), ErrorCode>(
                    (Atom::Str(b@), k as nat),
                ) && parse_variable(t, n as nat, false) == Ok::<(Atom, nat), ErrorCode>(
                    (Atom::Binary(b@), k as nat),
                ),
                Err(e) => parse_variable(t, n as nat, true) == Err::<(Atom, nat), ErrorCode>(e)
                    && parse_variable(t, n as nat, false) == Err::<(Atom, nat), ErrorCode>(e),
            }
        }),
{
    let ghost t = s@.subrange(pos as int, s@.len() as int);
    match read_payload(s, pos, n) {
        None => Err(ErrorCode::Underflow),
        Some(len) => {
            let avail = s.len() - pos - 1 - n;
            if len as usize as u64 == len && (len as usize) <= avail {
                let start = pos + 1 + n;
                let end = start + len as usize;
                let b = copy_range(s, start, end);
                assert(t.subrange(1 + n as int, 1 + n + len) =~= s@.subrange(
                    start as int,
                    end as int,
                ));
                Ok((b, 1 + n + len as usize))
            } else {
                Err(ErrorCode::Underflow)
            }
        },
    }
}


/// The exec result of parsing one value, read as the spec result.
pub open spec fn step_view(r: Result<(TaggedValue, usize), ErrorCode>) -> Result<(Atom, nat), ErrorCode> {
    match r {
        Ok((v, n)) => Ok((v@, n as nat)),
        Err(e) => Err(e),
    }
}

/// Parses the one value that starts at `s[pos]`: the value and how many
/// bytes it took.
pub fn parse_value(s: &[u8], pos: usize) -> (r: Result<(TaggedValue, usize), ErrorCode>)
    requires
        pos <= s@.len(),
    ensures
        step_view(r) == parse_one(s@.subrange(pos as int, s@.len() as int)),
{
    let ghost t = s@.subrange(pos as int, s@.len() as int);
    if pos == s.len() {
        return Err(ErrorCode::Underflow);
    }
    let c = s[pos];
    assert(t[0] == c);
    proof {
        lemma_pow256_values();
    }
    if c == CODE_NULL {
        Ok((TaggedValue::Null, 1))
    } else if c == CODE_TRUE {
        Ok((TaggedValue::Bool(true), 1))
    } else if c == CODE_FALSE {
        Ok((TaggedValue::Bool(false), 1))
    } else if c == CODE_UINT0 {
        Ok((TaggedValue::UInt(0), 1))
    } else if c == CODE_ULONG0 {
        Ok((TaggedValue::ULong(0), 1))
    } else if c == CODE_BOOLEAN {
        match read_payload(s, pos, 1) {
            Some(u) => Ok((TaggedValue::Bool(u != 0), 2)),
            None => Err(ErrorCode::Underflow),
        }
    } else if c == CODE_UBYTE {
        match read_payload(s, pos, 1) {
            Some(u) => Ok((TaggedValue::UByte(u as u8), 2)),
            None => Err(ErrorCode::Underflow),
        }
    } else if c == CODE_BYTE {
        match read_payload(s, pos, 1) {
            Some(u) => Ok((TaggedValue::Byte(signed_exec(u, 1) as i8), 2)),
            None => Err(ErrorCode::Underflow),
        }
    } else if c == CODE_SMALLUINT {
        match read_payload(s, pos, 1) {
            Some(u) => Ok((TaggedValue::UInt(u as u32), 2)),
            None => Err(ErrorCode::Underflow),
        }
    } else if c == CODE_SMALLULONG {
        match read_payload(s, pos, 1) {
            Some(u) => Ok((TaggedValue::ULong(u), 2)),
            None => Err(ErrorCode::Underflow),
        }
    } else if c == CODE_SMALLINT {
        match read_payload(s, pos, 1) {
            Some(u) => Ok((TaggedValue::Int(signed_exec(u, 1) as i32), 2)),
            None => Err(ErrorCode::Underflow),
        }
    } else if c == CODE_SMALLLONG {
        match read_payload(s, pos, 1) {
            Some(u) => Ok((TaggedValue::Long(signed_exec(u, 1)), 2)),
            None => Err(ErrorCode::Underflow),
        }
    } else if c == CODE_USHORT {
        match read_payload(s, pos, 2) {
            Some(u) => Ok((TaggedValue::UShort(u as u16), 3)),
            None => Err(ErrorCode::Underflow),
        }
    } else if c == CODE_SHORT {
        match read_payload(s, pos, 2) {
            Some(u) => Ok((TaggedValue::Short(signed_exec(u, 2) as i16), 3)),
            None => Err(ErrorCode::Underflow),
        }
    } else if c == CODE_UINT {
        match read_payload(s, pos, 4) {
            Some(u) => Ok((TaggedValue::UInt(u as u32), 5)),
            None => Err(ErrorCode::Underflow),
        }
    } else if c == CODE_INT {
        match read_payload(s, pos, 4) {
            Some(u) => Ok((TaggedValue::Int(signed_exec(u, 4) as i32), 5)),
            None => Err(ErrorCode::Underflow),
        }
    } else if c == CODE_FLOAT {
        match read_payload(s, pos, 4) {
            Some(u) => Ok((TaggedValue::Float(u as u32), 5)),
            None => Err(ErrorCode::Underflow),
        }
    } else if c == CODE_UTF32 {
        match read_payload(s, pos, 4) {
            Some(u) => Ok((TaggedValue::Char(u as u32), 5)),
            None => Err(ErrorCode::Underflow),
        }
    } else if c == CODE_ULONG {
        match read_payload(s, pos, 8) {
            Some(u) => Ok((TaggedValue::ULong(u), 9)),
            None => Err(ErrorCode::Underflow),
        }
    } else if c == CODE_LONG {
        match read_payload(s, pos, 8) {
            Some(u) => Ok((TaggedValue::Long(signed_exec(u, 8)), 9)),
            None => Err(ErrorCode::Underflow),
        }
    } else if c == CODE_DOUBLE {
        match read_payload(s, pos, 8) {
            Some(u) => Ok((TaggedValue::Double(u), 9)),
            None => Err(ErrorCode::Underflow),
        }
    } else if c == CODE_VBIN8 || c == CODE_VBIN32 || c == CODE_STR8 || c == CODE_STR32 {
        let n: usize = if c == CODE_VBIN8 || c == CODE_STR8 { 1 } else { 4 };
        match read_variable(s, pos, n) {
            Ok((b, k)) => if c == CODE_VBIN8 || c == CODE_VBIN32 {
                Ok((TaggedValue::Binary(b), k))
            } else {
                Ok((TaggedValue::Str(b), k))
            },
            Err(e) => Err(e),
        }
    } else {
        Err(ErrorCode::ArgErr)
    }
}

/// Values already read, put before the result of reading the rest.
pub open spec fn prepend(done: Seq<Atom>, rest: Result<Seq<Atom>, ErrorCode>) -> Result<Seq<Atom>, ErrorCode> {
    match rest {
        Ok(r) => Ok(done + r),
        Err(e) => Err(e),
    }
}

/// Decodes a whole byte string as a sequence of values. Fails with the first
/// failure of `parse_one`: `Underflow` where the input ends inside a value,
/// `ArgErr` on an unknown constructor code.
pub fn decode(s: &[u8]) -> (r: Result<Vec<TaggedValue>, ErrorCode>)
    ensures
        match r {
            Ok(vs) => parse_all(s@) == Ok::<Seq<Atom>, ErrorCode>(atoms_of(vs@)),
            Err(e) => parse_all(s@) == Err::<Seq<Atom>, ErrorCode>(e),
        },
{
    let mut out: Vec<TaggedValue> = Vec::new();
    let mut pos: usize = 0;
    assert(s@.subrange(0, s@.len() as int) =~= s@);
    while pos < s.len()
        invariant
            pos <= s@.len(),
            parse_all(s@) == prepend(atoms_of(out@), parse_all(s@.subrange(pos as int, s@.len() as int))),
        decreases s@.len() - pos,
    {
        let ghost t = s@.subrange(pos as int, s@.len() as int);
        match parse_value(s, pos) {
            Err(e) => {
                return Err(e);
            },
            Ok((v, n)) => {
                if n == 0 || n > s.len() - pos {
                    return Err(ErrorCode::Generic);
                }
                let ghost done = atoms_of(out@);
                out.push(v);
                pos = pos + n;
                proof {
                    assert(t.subrange(n as int, t.len() as int) =~= s@.subrange(pos as int, s@.len() as int));
                    assert(atoms_of(out@) =~= done.push(v@));
                    assert(done + seq![v@] =~= done.push(v@));
                    match parse_all(s@.subrange(pos as int, s@.len() as int)) {
                        Ok(rest) => {
                            assert(done + (seq![v@] + rest) =~= done.push(v@) + rest);
                        },
                        Err(_) => {},
                    }
                }
            },
        }
    }
    assert(s@.subrange(pos as int, s@.len() as int) =~= Seq::<u8>::empty());
    assert(atoms_of(out@) + Seq::<Atom>::empty() =~= atoms_of(out@));
    Ok(out)
}


proof fn lemma_parse_fixed_payload(code: u8, x: int, n: nat, rest: Seq<u8>)
    requires
        0 <= x < pow256(n),
    ensures
        ({
            let t = fixed(code, x, n) + rest;
            &&& t.len() >= 1 + n
            &&& t[0] == code
            &&& payload(t, n) == Some(x)
        }),
{
    lemma_be_len(x, n);
    lemma_from_be_be(x, n);
    let t = fixed(code, x, n) + rest;
    assert(t.subrange(1, 1 + n as int) =~= be(x, n));
}

proof fn lemma_parse_variable_payload(short: u8, long: u8, b: Seq<u8>, rest: Seq<u8>)
    requires
        b.len() < pow256(4),
    ensures
        ({
            let t = variable(short, long, b) + rest;
            let n: nat = if b.len() < 256 { 1 } else { 4 };
            &&& t[0] == (if b.len() < 256 { short } else { long })
            &&& parse_variable(t, n, true) == Ok::<(Atom, nat), ErrorCode>((Atom::Str(b), 1 + n + b.len()))
            &&& parse_variable(t, n, false) == Ok::<(Atom, nat), ErrorCode>((Atom::Binary(b), 1 + n + b.len()))
        }),
{
    lemma_pow256_values();
    let n: nat = if b.len() < 256 { 1 } else { 4 };
    let len = b.len() as int;
    lemma_be_len(len, n);
    lemma_from_be_be(len, n);
    let t = variable(short, long, b) + rest;
    assert(t.subrange(1, 1 + n as int) =~= be(len, n));
    assert(t.subrange(1 + n as int, 1 + n + len) =~= b);
}

/// Parsing the tagged form of a value, whatever follows it, gives the value
/// and the length of its form.
pub proof fn lemma_parse_one_encode(a: Atom, rest: Seq<u8>)
    requires
        atom_wf(a),
    ensures
        parse_one(encode_atom(a) + rest) == Ok::<(Atom, nat), ErrorCode>((a, encode_atom(a).len())),
{
    lemma_pow256_values();
    lemma_encode_atom_len(a);
    let t = encode_atom(a) + rest;
    match a {
        Atom::Null => {},
        Atom::Bool(b) => {},
        Atom::UByte(x) => {
            lemma_parse_fixed_payload(CODE_UBYTE, x as int, 1, rest);
        },
        Atom::UShort(x) => {
            lemma_parse_fixed_payload(CODE_USHORT, x as int, 2, rest);
        },
        Atom::UInt(x) => {
            if x < 256 {
                lemma_parse_fixed_payload(CODE_SMALLUINT, x as int, 1, rest);
            } else {
                lemma_parse_fixed_payload(CODE_UINT, x as int, 4, rest);
            }
        },
        Atom::ULong(x) => {
            if x < 256 {
                lemma_parse_fixed_payload(CODE_SMALLULONG, x as int, 1, rest);
            } else {
                lemma_parse_fixed_payload(CODE_ULONG, x as int, 8, rest);
            }
        },
        Atom::Byte(x) => {
            lemma_parse_fixed_payload(CODE_BYTE, twos(x as int, 1), 1, rest);
        },
        Atom::Short(x) => {
            lemma_parse_fixed_payload(CODE_SHORT, twos(x as int, 2), 2, rest);
        },
        Atom::Int(x) => {
            if -128 <= x < 128 {
                lemma_parse_fixed_payload(CODE_SMALLINT, twos(x as int, 1), 1, rest);
            } else {
                lemma_parse_fixed_payload(CODE_INT, twos(x as int, 4), 4, rest);
            }
        },
        Atom::Long(x) => {
            if -128 <= x < 128 {
                lemma_parse_fixed_payload(CODE_SMALLLONG, twos(x as int, 1), 1, rest);
            } else {
                lemma_parse_fixed_payload(CODE_LONG, twos(x as int, 8), 8, rest);
            }
        },
        Atom::Float(x) => {
            lemma_parse_fixed_payload(CODE_FLOAT, x as int, 4, rest);
        },
        Atom::Double(x) => {
            lemma_parse_fixed_payload(CODE_DOUBLE, x as int, 8, rest);
        },
        Atom::Char(x) => {
            lemma_parse_fixed_payload(CODE_UTF32, x as int, 4, rest);
        },
        Atom::Str(b) => {
            lemma_parse_variable_payload(CODE_STR8, CODE_STR32, b, rest);
        },
        Atom::Binary(b) => {
            lemma_parse_variable_payload(CODE_VBIN8, CODE_VBIN32, b, rest);
        },
    }
}

pub proof fn lemma_encode_atoms_append(a: Seq<Atom>, b: Seq<Atom>)
    ensures
        encode_atoms(a + b) == encode_atoms(a) + encode_atoms(b),
    decreases b.len(),
{
    if b.len() == 0 {
        assert(a + b =~= a);
        assert(encode_atoms(a) + encode_atoms(b) =~= encode_atoms(a));
    } else {
        lemma_encode_atoms_append(a, b.drop_last());
        assert((a + b).drop_last() =~= a + b.drop_last());
        assert((a + b).last() == b.last());
        assert(encode_atoms(a + b) =~= encode_atoms(a) + encode_atoms(b));
    }
}

/// Decoding the tagged form of well-formed values gives back exactly those
/// values, in order.
pub proof fn lemma_parse_all_encode(s: Seq<Atom>)
    requires
        forall|i: int| 0 <= i < s.len() ==> atom_wf(#[trigger] s[i]),
    ensures
        parse_all(encode_atoms(s)) == Ok::<Seq<Atom>, ErrorCode>(s),
    decreases s.len(),
{
    if s.len() == 0 {
        assert(encode_atoms(s) =~= Seq::<u8>::empty());
        assert(s =~= Seq::<Atom>::empty());
    } else {
        let a = s[0];
        let tail = s.drop_first();
        assert(seq![a] + tail =~= s);
        lemma_encode_atoms_append(seq![a], tail);
        assert(seq![a].drop_last() =~= Seq::<Atom>::empty());
        assert(seq![a].last() == a);
        assert(encode_atoms(Seq::<Atom>::empty()) == Seq::<u8>::empty());
        assert(encode_atoms(seq![a]) =~= encode_atom(a));
        let t = encode_atoms(s);
        assert(t == encode_atom(a) + encode_atoms(tail));
        lemma_parse_one_encode(a, encode_atoms(tail));
        lemma_encode_atom_len(a);
        let n = encode_atom(a).len();
        assert(t.subrange(n as int, t.len() as int) =~= encode_atoms(tail));
        assert forall|i: int| 0 <= i < tail.len() implies atom_wf(#[trigger] tail[i]) by {
            assert(tail[i] == s[i + 1]);
        }
        lemma_parse_all_encode(tail);
        assert(t.len() > 0);
        assert(parse_one(t) == Ok::<(Atom, nat), ErrorCode>((a, n)));
        assert(0 < n <= t.len());
        assert(parse_all(t) == Ok::<Seq<Atom>, ErrorCode>(seq![a] + tail));
        assert(seq![a] + tail =~= s);
    }
}


} // verus!
