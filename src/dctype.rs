use vstd::prelude::*;

use crate::datagram::{u16_from_le, u32_from_le, u64_from_le, Datagram, DatagramIterator};
use crate::globals::DgSizeTag;
use crate::hashgen::{string_inputs, DCHashGenerator};

verus! {

/// The kinds of type a schema field may have.
#[derive(Debug, Clone, Copy, PartialEq, Eq, Structural)]
pub enum DCTypedefType {
    // numeric types
    TInt8,
    TInt16,
    TInt32,
    TInt64,
    TUInt8,
    TChar,
    TUInt16,
    TUInt32,
    TUInt64,
    TFloat32,
    TFloat64,
    // sized types
    TString,
    TVarString,
    TBlob,
    TVarBlob,
    TBlob32,
    TVarBlob32,
    TArray,
    TVarArray,
    // composite types
    TStruct,
    TMethod,
    TInvalid,
}

/// The numeric code of a type kind, as folded into schema fingerprints.
pub open spec fn typedef_code(t: DCTypedefType) -> u8 {
    match t {
        DCTypedefType::TInt8 => 0,
        DCTypedefType::TInt16 => 1,
        DCTypedefType::TInt32 => 2,
        DCTypedefType::TInt64 => 3,
        DCTypedefType::TUInt8 => 4,
        DCTypedefType::TUInt16 => 5,
        DCTypedefType::TUInt32 => 6,
        DCTypedefType::TUInt64 => 7,
        DCTypedefType::TChar => 8,
        DCTypedefType::TFloat32 => 9,
        DCTypedefType::TFloat64 => 10,
        DCTypedefType::TString => 11,
        DCTypedefType::TVarString => 12,
        DCTypedefType::TBlob => 13,
        DCTypedefType::TVarBlob => 14,
        DCTypedefType::TArray => 15,
        DCTypedefType::TVarArray => 16,
        DCTypedefType::TStruct => 17,
        DCTypedefType::TMethod => 18,
        DCTypedefType::TBlob32 => 19,
        DCTypedefType::TVarBlob32 => 20,
        DCTypedefType::TInvalid => 21,
    }
}

impl DCTypedefType {
    /// The numeric code of this type kind.
    pub fn code(&self) -> (r: u8)
        ensures
            r == typedef_code(*self),
    {
        match self {
            DCTypedefType::TInt8 => 0,
            DCTypedefType::TInt16 => 1,
            DCTypedefType::TInt32 => 2,
            DCTypedefType::TInt64 => 3,
            DCTypedefType::TUInt8 => 4,
            DCTypedefType::TUInt16 => 5,
            DCTypedefType::TUInt32 => 6,
            DCTypedefType::TUInt64 => 7,
            DCTypedefType::TChar => 8,
            DCTypedefType::TFloat32 => 9,
            DCTypedefType::TFloat64 => 10,
            DCTypedefType::TString => 11,
            DCTypedefType::TVarString => 12,
            DCTypedefType::TBlob => 13,
            DCTypedefType::TVarBlob => 14,
            DCTypedefType::TArray => 15,
            DCTypedefType::TVarArray => 16,
            DCTypedefType::TStruct => 17,
            DCTypedefType::TMethod => 18,
            DCTypedefType::TBlob32 => 19,
            DCTypedefType::TVarBlob32 => 20,
            DCTypedefType::TInvalid => 21,
        }
    }
}

/// What a type definition holds.
pub struct TypeDefView {
    pub alias: Option<Seq<char>>,
    pub data_type: DCTypedefType,
    pub size: DgSizeTag,
}

/// The inputs a type definition folds into a fingerprint: its type code, then
/// its alias if it has one.
pub open spec fn typedef_hash_inputs(t: TypeDefView) -> Seq<u32> {
    seq![typedef_code(t.data_type) as u32] + match t.alias {
        Some(a) => string_inputs(a),
        None => Seq::empty(),
    }
}

/// The shape of a field's value: its kind, its declared byte size (0 for a
/// variable length) and an optional alias name.
pub struct DCTypeDefinition {
    alias: Option<String>,
    data_type: DCTypedefType,
    size: DgSizeTag,
}

impl View for DCTypeDefinition {
    type V = TypeDefView;

    closed spec fn view(&self) -> TypeDefView {
        TypeDefView {
            alias: match self.alias {
                Some(s) => Some(s@),
                None => None,
            },
            data_type: self.data_type,
            size: self.size,
        }
    }
}

impl DCTypeDefinition {
    /// An invalid, variable-length type with no alias.
    pub fn new() -> (r: DCTypeDefinition)
        ensures
            r@ == (TypeDefView { alias: None, data_type: DCTypedefType::TInvalid, size: 0 }),
    {
        DCTypeDefinition { alias: None, data_type: DCTypedefType::TInvalid, size: 0 }
    }

    /// A type of the given kind and declared byte size, with no alias.
    pub fn new_sized(data_type: DCTypedefType, size: DgSizeTag) -> (r: DCTypeDefinition)
        ensures
            r@ == (TypeDefView { alias: None, data_type, size }),
    {
        DCTypeDefinition { alias: None, data_type, size }
    }

    /// Folds the type code and the alias, if any, into `hashgen`.
    pub fn generate_hash(&self, hashgen: &mut DCHashGenerator)
        ensures
            final(hashgen)@ == old(hashgen)@ + typedef_hash_inputs(self@),
    {
        hashgen.add_int(self.data_type.code() as u32);
        match &self.alias {
            Some(a) => {
                hashgen.add_string(a.as_str());
            },
            None => {},
        }
        proof {
            assert(final(hashgen)@ =~= old(hashgen)@ + typedef_hash_inputs(self@));
        }
    }

    pub fn get_dc_type(&self) -> (r: DCTypedefType)
        ensures
            r == self@.data_type,
    {
        self.data_type
    }

    pub fn is_variable_length(&self) -> (r: bool)
        ensures
            r == (self@.size == 0),
    {
        self.size == 0
    }

    pub fn get_size(&self) -> (r: DgSizeTag)
        ensures
            r == self@.size,
    {
        self.size
    }

    pub fn has_alias(&self) -> (r: bool)
        ensures
            r == self@.alias is Some,
    {
        self.alias.is_some()
    }

    /// The alias, or an error when there is none.
    pub fn get_alias(&self) -> (r: Result<String, ()>)
        ensures
            match self@.alias {
                Some(a) => r is Ok && r->Ok_0@ == a,
                None => r == Err::<String, ()>(()),
            },
    {
        match &self.alias {
            Some(a) => Ok(a.clone()),
            None => Err(()),
        }
    }

    pub fn set_alias(&mut self, alias: String)
        ensures
            final(self)@ == (TypeDefView { alias: Some(alias@), ..old(self)@ }),
    {
        self.alias = Some(alias);
    }
}

/// The kinds of value a number or a range can hold.
#[derive(Debug, Clone, Copy, PartialEq, Eq, Structural)]
pub enum DCNumberType {
    Unset,
    Int,
    UInt,
}

/// A number tagged by its kind: none, signed or unsigned.
#[derive(Debug, Clone, Copy, PartialEq, Eq, Structural)]
pub enum DCNumber {
    Unset,
    Int(i64),
    UInt(u64),
}

/// The kind of a number.
pub open spec fn number_kind(n: DCNumber) -> DCNumberType {
    match n {
        DCNumber::Unset => DCNumberType::Unset,
        DCNumber::Int(_) => DCNumberType::Int,
        DCNumber::UInt(_) => DCNumberType::UInt,
    }
}

impl DCNumber {
    /// A number with no value.
    pub fn new() -> (r: DCNumber)
        ensures
            r == DCNumber::Unset,
    {
        DCNumber::Unset
    }

    pub fn new_integer(num: i64) -> (r: DCNumber)
        ensures
            r == DCNumber::Int(num),
    {
        DCNumber::Int(num)
    }

    pub fn new_unsigned_integer(num: u64) -> (r: DCNumber)
        ensures
            r == DCNumber::UInt(num),
    {
        DCNumber::UInt(num)
    }

    pub fn number_type(&self) -> (r: DCNumberType)
        ensures
            r == number_kind(*self),
    {
        match self {
            DCNumber::Unset => DCNumberType::Unset,
            DCNumber::Int(_) => DCNumberType::Int,
            DCNumber::UInt(_) => DCNumberType::UInt,
        }
    }
}

/// A closed interval of numbers of one kind; a range of kind none is unset and
/// holds every number.
#[derive(Debug, Clone, Copy, PartialEq, Eq, Structural)]
pub struct DCNumericRange {
    range_type: DCNumberType,
    min: DCNumber,
    max: DCNumber,
}

/// Whether `n` lies in the interval `[min, max]`. Numbers of another kind than
/// the bounds never do.
pub open spec fn interval_contains(min: DCNumber, max: DCNumber, n: DCNumber) -> bool {
    match (min, max, n) {
        (DCNumber::Int(a), DCNumber::Int(b), DCNumber::Int(v)) => a <= v && v <= b,
        (DCNumber::UInt(a), DCNumber::UInt(b), DCNumber::UInt(v)) => a <= v && v <= b,
        _ => false,
    }
}

impl DCNumericRange {
    /// The kind of the range.
    pub closed spec fn kind(self) -> DCNumberType {
        self.range_type
    }

    /// The lower bound.
    pub closed spec fn lo(self) -> DCNumber {
        self.min
    }

    /// The upper bound.
    pub closed spec fn hi(self) -> DCNumber {
        self.max
    }

    /// Whether the bounds are of the range's kind: none for an unset range,
    /// signed for a signed range, unsigned for an unsigned one.
    pub open spec fn wf(self) -> bool {
        match self.kind() {
            DCNumberType::Unset => self.lo() == DCNumber::Unset && self.hi() == DCNumber::Unset,
            DCNumberType::Int => self.lo() is Int && self.hi() is Int,
            DCNumberType::UInt => self.lo() is UInt && self.hi() is UInt,
        }
    }

    #[verifier::type_invariant]
    spec fn bounds_of_kind(self) -> bool {
        self.wf()
    }

    /// Whether the range holds `n`.
    pub open spec fn spec_contains(self, n: DCNumber) -> bool {
        self.kind() == DCNumberType::Unset || interval_contains(self.lo(), self.hi(), n)
    }

    /// The unset range.
    pub fn new() -> (r: DCNumericRange)
        ensures
            r.kind() == DCNumberType::Unset,
            r.lo() == DCNumber::Unset,
            r.hi() == DCNumber::Unset,
            r.wf(),
    {
        DCNumericRange { range_type: DCNumberType::Unset, min: DCNumber::Unset, max: DCNumber::Unset }
    }

    pub fn new_integer_range(min: i64, max: i64) -> (r: DCNumericRange)
        ensures
            r.kind() == DCNumberType::Int,
            r.lo() == DCNumber::Int(min),
            r.hi() == DCNumber::Int(max),
            r.wf(),
    {
        DCNumericRange {
            range_type: DCNumberType::Int,
            min: DCNumber::Int(min),
            max: DCNumber::Int(max),
        }
    }

    pub fn new_unsigned_integer_range(min: u64, max: u64) -> (r: DCNumericRange)
        ensures
            r.kind() == DCNumberType::UInt,
            r.lo() == DCNumber::UInt(min),
            r.hi() == DCNumber::UInt(max),
            r.wf(),
    {
        DCNumericRange {
            range_type: DCNumberType::UInt,
            min: DCNumber::UInt(min),
            max: DCNumber::UInt(max),
        }
    }

    /// Whether `num` lies in the range; an unset range holds every number.
    pub fn contains(&self, num: DCNumber) -> (r: bool)
        ensures
            self.wf(),
            r == self.spec_contains(num),
    {
        proof {
            use_type_invariant(self);
        }
        match self.range_type {
            DCNumberType::Unset => true,
            _ => match (self.min, self.max, num) {
                (DCNumber::Int(a), DCNumber::Int(b), DCNumber::Int(v)) => a <= v && v <= b,
                (DCNumber::UInt(a), DCNumber::UInt(b), DCNumber::UInt(v)) => a <= v && v <= b,
                _ => false,
            },
        }
    }

    /// Whether the range is unset.
    pub fn is_empty(&self) -> (r: bool)
        ensures
            self.wf(),
            r == (self.kind() == DCNumberType::Unset),
    {
        proof {
            use_type_invariant(self);
        }
        match self.range_type {
            DCNumberType::Unset => true,
            _ => false,
        }
    }
}

/// `n` multiplied by `d`, when the product fits the number's kind.
pub open spec fn scale_number(n: DCNumber, d: u16) -> Option<DCNumber> {
    match n {
        DCNumber::Unset => Some(DCNumber::Unset),
        DCNumber::Int(v) => if i64::MIN <= v * d <= i64::MAX {
            Some(DCNumber::Int((v * d) as i64))
        } else {
            None
        },
        DCNumber::UInt(v) => if v * d <= u64::MAX {
            Some(DCNumber::UInt((v * d) as u64))
        } else {
            None
        },
    }
}

/// Whether both bounds of `r` can be multiplied by `d`.
pub open spec fn range_scalable(r: DCNumericRange, d: u16) -> bool {
    scale_number(r.lo(), d) is Some && scale_number(r.hi(), d) is Some
}

/// Whether `s` is `r` with both bounds multiplied by `d`.
pub open spec fn range_scales_to(r: DCNumericRange, d: u16, s: DCNumericRange) -> bool {
    &&& s.kind() == r.kind()
    &&& scale_number(r.lo(), d) == Some(s.lo())
    &&& scale_number(r.hi(), d) == Some(s.hi())
}

/// Whether `r` is the unset range.
pub open spec fn is_unset_range(r: DCNumericRange) -> bool {
    &&& r.kind() == DCNumberType::Unset
    &&& r.lo() == DCNumber::Unset
    &&& r.hi() == DCNumber::Unset
}

/// The 32-bit word a number folds into a fingerprint: its low bits.
pub open spec fn number_word(n: DCNumber) -> u32 {
    match n {
        DCNumber::Unset => 0,
        DCNumber::Int(v) => v as u32,
        DCNumber::UInt(v) => v as u32,
    }
}

/// What a numeric type holds: its base type, the divisor, the modulus and range
/// as declared, and their counterparts scaled by the divisor.
pub struct NumericTypeView {
    pub base: TypeDefView,
    pub divisor: u16,
    pub orig_modulus: u64,
    pub orig_range: DCNumericRange,
    pub modulus: u64,
    pub range: DCNumericRange,
}

/// The scaled modulus and range are those declared, multiplied by a nonzero
/// divisor, and both ranges have bounds of their own kind.
pub open spec fn derived_ok(v: NumericTypeView) -> bool {
    &&& v.divisor != 0
    &&& v.modulus == v.orig_modulus * v.divisor
    &&& range_scales_to(v.orig_range, v.divisor, v.range)
    &&& v.orig_range.wf()
    &&& v.range.wf()
}

/// The inputs a numeric type folds into a fingerprint: its base type, the
/// divisor, the scaled modulus if one is declared, and the scaled bounds if a
/// range is declared.
pub open spec fn numeric_hash_inputs(v: NumericTypeView) -> Seq<u32> {
    typedef_hash_inputs(v.base) + seq![v.divisor as u32] + (if v.orig_modulus != 0 {
        seq![v.modulus as u32]
    } else {
        Seq::empty()
    }) + (if v.orig_range.kind() != DCNumberType::Unset {
        seq![number_word(v.range.lo()), number_word(v.range.hi())]
    } else {
        Seq::empty()
    })
}

/// The number of bytes a value of kind `t` takes, for the integer kinds.
pub open spec fn integer_width(t: DCTypedefType) -> nat {
    match t {
        DCTypedefType::TInt8 | DCTypedefType::TUInt8 | DCTypedefType::TChar => 1,
        DCTypedefType::TInt16 | DCTypedefType::TUInt16 => 2,
        DCTypedefType::TInt32 | DCTypedefType::TUInt32 => 4,
        DCTypedefType::TInt64 | DCTypedefType::TUInt64 => 8,
        _ => 0,
    }
}

/// The number that the wire bytes `b` hold as a value of kind `t`: signed kinds
/// decode as signed, unsigned kinds and char as unsigned.
pub open spec fn decode_integer(t: DCTypedefType, b: Seq<u8>) -> DCNumber {
    match t {
        DCTypedefType::TInt8 => DCNumber::Int((b[0] as i8) as i64),
        DCTypedefType::TInt16 => DCNumber::Int((u16_from_le(b) as i16) as i64),
        DCTypedefType::TInt32 => DCNumber::Int((u32_from_le(b) as i32) as i64),
        DCTypedefType::TInt64 => DCNumber::Int(u64_from_le(b) as i64),
        DCTypedefType::TUInt8 | DCTypedefType::TChar => DCNumber::UInt(b[0] as u64),
        DCTypedefType::TUInt16 => DCNumber::UInt(u16_from_le(b) as u64),
        DCTypedefType::TUInt32 => DCNumber::UInt(u32_from_le(b) as u64),
        _ => DCNumber::UInt(u64_from_le(b)),
    }
}

/// The number that `data` holds as a value of type `base`, if it decodes: its
/// length must be the declared size, and that the width of an integer kind.
pub open spec fn decode_value(base: TypeDefView, data: Seq<u8>) -> Option<DCNumber> {
    if integer_width(base.data_type) != 0 && data.len() == base.size && data.len()
        == integer_width(base.data_type) {
        Some(decode_integer(base.data_type, data))
    } else {
        None
    }
}

/// Whether `n` is a multiple of `m`; every number is a multiple of 0.
pub open spec fn multiple_of(n: DCNumber, m: u64) -> bool {
    m == 0 || match n {
        DCNumber::Unset => true,
        DCNumber::Int(v) => (if v >= 0 {
            v as int
        } else {
            -v
        }) % (m as int) == 0,
        DCNumber::UInt(v) => v % m == 0,
    }
}

/// Whether `data` is an acceptable value of the numeric type `v`: it decodes,
/// lies in the scaled range, and is a multiple of the scaled modulus if one is set.
pub open spec fn value_accepted(v: NumericTypeView, data: Seq<u8>) -> bool {
    match decode_value(v.base, data) {
        Some(n) => v.range.spec_contains(n) && multiple_of(n, v.modulus),
        None => false,
    }
}

/// A type of numeric kind with an optional fixed-point divisor, modulus and range.
pub struct DCNumericType {
    parent: DCTypeDefinition,
    divisor: u16,
    // the modulus and range as declared, unscaled by the divisor
    orig_modulus: u64,
    orig_range: DCNumericRange,
    // the modulus and range scaled by the divisor
    modulus: u64,
    range: DCNumericRange,
}

impl View for DCNumericType {
    type V = NumericTypeView;

    closed spec fn view(&self) -> NumericTypeView {
        NumericTypeView {
            base: self.parent@,
            divisor: self.divisor,
            orig_modulus: self.orig_modulus,
            orig_range: self.orig_range,
            modulus: self.modulus,
            range: self.range,
        }
    }
}

/// `n` multiplied by `d`, when the product fits the number's kind.
fn scale(n: DCNumber, d: u16) -> (r: Option<DCNumber>)
    ensures
        r == scale_number(n, d),
{
    match n {
        DCNumber::Unset => Some(DCNumber::Unset),
        DCNumber::Int(v) => match v.checked_mul(d as i64) {
            Some(p) => Some(DCNumber::Int(p)),
            None => None,
        },
        DCNumber::UInt(v) => match v.checked_mul(d as u64) {
            Some(p) => Some(DCNumber::UInt(p)),
            None => None,
        },
    }
}

/// `r` with both bounds multiplied by `d`, when both products fit.
fn scale_range(r: DCNumericRange, d: u16) -> (s: Option<DCNumericRange>)
    ensures
        s is Some <==> range_scalable(r, d),
        s is Some ==> range_scales_to(r, d, s->Some_0),
{
    proof {
        use_type_invariant(&r);
    }
    match (scale(r.min, d), scale(r.max, d)) {
        (Some(min), Some(max)) => Some(DCNumericRange { range_type: r.range_type, min, max }),
        _ => None,
    }
}

impl DCNumericType {
    #[verifier::type_invariant]
    spec fn scaled_consistently(&self) -> bool {
        derived_ok(self@)
    }

    /// A numeric type over `base_type`, with divisor 1 and no modulus or range.
    pub fn new(base_type: DCTypeDefinition) -> (r: DCNumericType)
        ensures
            r@.base == base_type@,
            r@.divisor == 1,
            r@.orig_modulus == 0,
            r@.modulus == 0,
            is_unset_range(r@.orig_range),
            is_unset_range(r@.range),
    {
        DCNumericType {
            parent: base_type,
            divisor: 1,
            orig_modulus: 0,
            orig_range: DCNumericRange::new(),
            modulus: 0,
            range: DCNumericRange::new(),
        }
    }

    /// Folds the base type, the divisor and the declared constraints into `hashgen`.
    pub fn generate_hash(&self, hashgen: &mut DCHashGenerator)
        ensures
            final(hashgen)@ == old(hashgen)@ + numeric_hash_inputs(self@),
    {
        self.parent.generate_hash(hashgen);
        hashgen.add_int(self.divisor as u32);
        if self.has_modulus() {
            hashgen.add_int(self.modulus as u32);
        }
        if self.has_range() {
            hashgen.add_int(number_word_of(self.range.min));
            hashgen.add_int(number_word_of(self.range.max));
        }
        proof {
            assert(final(hashgen)@ =~= old(hashgen)@ + numeric_hash_inputs(self@));
        }
    }

    pub fn has_modulus(&self) -> (r: bool)
        ensures
            r == (self@.orig_modulus != 0),
    {
        self.orig_modulus != 0
    }

    pub fn has_range(&self) -> (r: bool)
        ensures
            r == (self@.orig_range.kind() != DCNumberType::Unset),
    {
        !self.orig_range.is_empty()
    }

    pub fn get_divisor(&self) -> (r: u16)
        ensures
            r == self@.divisor,
    {
        self.divisor
    }

    /// The modulus as declared; 0 when none is.
    pub fn get_modulus(&self) -> (r: u64)
        ensures
            r == self@.orig_modulus,
    {
        self.orig_modulus
    }

    /// The range as declared.
    pub fn get_range(&self) -> (r: DCNumericRange)
        ensures
            r == self@.orig_range,
            r.wf(),
    {
        proof {
            use_type_invariant(self);
        }
        self.orig_range
    }

    /// The base type.
    pub fn deref(&self) -> (r: &DCTypeDefinition)
        ensures
            r@ == self@.base,
    {
        &self.parent
    }

    /// Decodes `data` as a value of this type. The first item tells whether it
    /// decoded; the bytes must be exactly the declared size, which must be the
    /// width of an integer kind.
    pub fn data_to_number(&self, data: Vec<u8>) -> (r: (bool, DCNumber))
        ensures
            r.0 == decode_value(self@.base, data@) is Some,
            r.0 ==> r.1 == decode_value(self@.base, data@)->Some_0,
    {
        let ghost d = data@;
        let width: usize = width_of(self.parent.data_type);
        if width == 0 || data.len() != self.parent.size as usize || data.len() != width {
            return (false, DCNumber::Int(0));
        }
        let mut dg = Datagram::new();
        let added = dg.add_data(data);
        assert(added is Ok);
        let mut dgi = DatagramIterator::new(dg);
        proof {
            assert(dgi.data().subrange(0, d.len() as int) =~= d);
        }
        let decoded = match self.parent.data_type {
            DCTypedefType::TInt8 => match dgi.read_i8() {
                Ok(v) => Some(DCNumber::Int(v as i64)),
                Err(_) => None,
            },
            DCTypedefType::TInt16 => match dgi.read_i16() {
                Ok(v) => Some(DCNumber::Int(v as i64)),
                Err(_) => None,
            },
            DCTypedefType::TInt32 => match dgi.read_i32() {
                Ok(v) => Some(DCNumber::Int(v as i64)),
                Err(_) => None,
            },
            DCTypedefType::TInt64 => match dgi.read_i64() {
                Ok(v) => Some(DCNumber::Int(v)),
                Err(_) => None,
            },
            DCTypedefType::TUInt8 | DCTypedefType::TChar => match dgi.read_u8() {
                Ok(v) => Some(DCNumber::UInt(v as u64)),
                Err(_) => None,
            },
            DCTypedefType::TUInt16 => match dgi.read_u16() {
                Ok(v) => Some(DCNumber::UInt(v as u64)),
                Err(_) => None,
            },
            DCTypedefType::TUInt32 => match dgi.read_u32() {
                Ok(v) => Some(DCNumber::UInt(v as u64)),
                Err(_) => None,
            },
            _ => match dgi.read_u64() {
                Ok(v) => Some(DCNumber::UInt(v)),
                Err(_) => None,
            },
        };
        match decoded {
            Some(n) => (true, n),
            None => (false, DCNumber::Int(0)),
        }
    }

    /// Whether `data` is an acceptable value: it decodes, lies within the scaled
    /// range (both bounds included), and is a multiple of the scaled modulus if
    /// one is declared.
    pub fn within_range(&self, data: Vec<u8>) -> (r: Result<(), ()>)
        ensures
            r is Ok <==> value_accepted(self@, data@),
    {
        let (ok, n) = self.data_to_number(data);
        if !ok {
            return Err(());
        }
        if !self.range.contains(n) {
            return Err(());
        }
        if !is_multiple(n, self.modulus) {
            return Err(());
        }
        Ok(())
    }

    /// Replaces the divisor and the constraints, keeping the base type.
    fn rebuild(
        &mut self,
        divisor: u16,
        orig_modulus: u64,
        modulus: u64,
        orig_range: DCNumericRange,
        range: DCNumericRange,
    )
        requires
            derived_ok(
                NumericTypeView {
                    base: old(self)@.base,
                    divisor,
                    orig_modulus,
                    orig_range,
                    modulus,
                    range,
                },
            ),
        ensures
            final(self)@ == (NumericTypeView {
                base: old(self)@.base,
                divisor,
                orig_modulus,
                orig_range,
                modulus,
                range,
            }),
    {
        proof {
            use_type_invariant(&*self);
        }
        let mut parent: DCTypeDefinition = DCTypeDefinition::new();
        std::mem::swap(&mut parent, &mut self.parent);
        *self = DCNumericType { parent, divisor, orig_modulus, orig_range, modulus, range };
    }

    /// Sets the divisor and scales the declared modulus and range by it. A zero
    /// divisor, or one under which a scaled value would not fit, is refused and
    /// nothing changes.
    pub fn set_divisor(&mut self, divisor: u16) -> (r: Result<(), ()>)
        ensures
            derived_ok(final(self)@),
            if divisor != 0 && range_scalable(old(self)@.orig_range, divisor)
                && old(self)@.orig_modulus * divisor <= u64::MAX {
                &&& r is Ok
                &&& final(self)@.divisor == divisor
                &&& final(self)@.base == old(self)@.base
                &&& final(self)@.orig_modulus == old(self)@.orig_modulus
                &&& final(self)@.orig_range == old(self)@.orig_range
            } else {
                r is Err && final(self)@ == old(self)@
            },
    {
        proof {
            use_type_invariant(&*self);
        }
        if divisor == 0 {
            return Err(());
        }
        let range = match scale_range(self.orig_range, divisor) {
            Some(s) => s,
            None => return Err(()),
        };
        let modulus = match self.orig_modulus.checked_mul(divisor as u64) {
            Some(m) => m,
            None => return Err(()),
        };
        self.rebuild(divisor, self.orig_modulus, modulus, self.orig_range, range);
        Ok(())
    }

    /// Declares a modulus and scales it by the divisor. Zero, or a modulus whose
    /// scaled value would not fit, is refused and nothing changes.
    pub fn set_modulus(&mut self, modulus: u64) -> (r: Result<(), ()>)
        ensures
            derived_ok(final(self)@),
            if modulus != 0 && modulus * old(self)@.divisor <= u64::MAX {
                &&& r is Ok
                &&& final(self)@ == (NumericTypeView {
                    orig_modulus: modulus,
                    modulus: (modulus * old(self)@.divisor) as u64,
                    ..old(self)@
                })
            } else {
                r is Err && final(self)@ == old(self)@
            },
    {
        proof {
            use_type_invariant(&*self);
        }
        if modulus == 0 {
            return Err(());
        }
        let scaled = match modulus.checked_mul(self.divisor as u64) {
            Some(m) => m,
            None => return Err(()),
        };
        self.rebuild(self.divisor, modulus, scaled, self.orig_range, self.range);
        Ok(())
    }

    /// Declares a range and scales it by the divisor. A range whose scaled bounds
    /// would not fit is refused and nothing changes.
    pub fn set_range(&mut self, range: DCNumericRange) -> (r: Result<(), ()>)
        ensures
            derived_ok(final(self)@),
            if range_scalable(range, old(self)@.divisor) {
                &&& r is Ok
                &&& final(self)@.orig_range == range
                &&& final(self)@.base == old(self)@.base
                &&& final(self)@.divisor == old(self)@.divisor
                &&& final(self)@.orig_modulus == old(self)@.orig_modulus
                &&& final(self)@.modulus == old(self)@.modulus
            } else {
                r is Err && final(self)@ == old(self)@
            },
    {
        proof {
            use_type_invariant(&*self);
            use_type_invariant(&range);
        }
        let scaled = match scale_range(range, self.divisor) {
            Some(s) => s,
            None => return Err(()),
        };
        self.rebuild(self.divisor, self.orig_modulus, self.modulus, range, scaled);
        Ok(())
    }
}

/// The 32-bit word a number folds into a fingerprint.
fn number_word_of(n: DCNumber) -> (r: u32)
    ensures
        r == number_word(n),
{
    match n {
        DCNumber::Unset => 0,
        DCNumber::Int(v) => v as u32,
        DCNumber::UInt(v) => v as u32,
    }
}

/// The number of bytes a value of kind `t` takes; 0 for the kinds that are not
/// integers.
fn width_of(t: DCTypedefType) -> (r: usize)
    ensures
        r == integer_width(t),
{
    match t {
        DCTypedefType::TInt8 | DCTypedefType::TUInt8 | DCTypedefType::TChar => 1,
        DCTypedefType::TInt16 | DCTypedefType::TUInt16 => 2,
        DCTypedefType::TInt32 | DCTypedefType::TUInt32 => 4,
        DCTypedefType::TInt64 | DCTypedefType::TUInt64 => 8,
        _ => 0,
    }
}

/// Whether `n` is a multiple of `m`.
fn is_multiple(n: DCNumber, m: u64) -> (r: bool)
    ensures
        r == multiple_of(n, m),
{
    if m == 0 {
        return true;
    }
    match n {
        DCNumber::Unset => true,
        DCNumber::Int(v) => {
            let a: u64 = if v >= 0 {
                v as u64
            } else {
                (-(v + 1)) as u64 + 1
            };
            a % m == 0
        },
        DCNumber::UInt(v) => v % m == 0,
    }
}

/// With no modulus set and a nonempty range, a signed value that decodes is accepted exactly when it
/// lies within the scaled bounds, both included: the bounds themselves are
/// accepted and the values just outside them are not.
pub proof fn lemma_signed_bounds_inclusive(
    v: NumericTypeView,
    data: Seq<u8>,
    x: i64,
    lo: i64,
    hi: i64,
)
    requires
        v.range.kind() == DCNumberType::Int,
        v.range.lo() == DCNumber::Int(lo),
        v.range.hi() == DCNumber::Int(hi),
        lo <= hi,
        v.modulus == 0,
        decode_value(v.base, data) == Some(DCNumber::Int(x)),
    ensures
        value_accepted(v, data) <==> lo <= x <= hi,
        x == lo || x == hi ==> value_accepted(v, data),
        x == lo - 1 || x == hi + 1 ==> !value_accepted(v, data),
{
}

/// With no modulus set and a nonempty range, an unsigned value that decodes is accepted exactly when
/// it lies within the scaled bounds, both included.
pub proof fn lemma_unsigned_bounds_inclusive(
    v: NumericTypeView,
    data: Seq<u8>,
    x: u64,
    lo: u64,
    hi: u64,
)
    requires
        v.range.kind() == DCNumberType::UInt,
        v.range.lo() == DCNumber::UInt(lo),
        v.range.hi() == DCNumber::UInt(hi),
        lo <= hi,
        v.modulus == 0,
        decode_value(v.base, data) == Some(DCNumber::UInt(x)),
    ensures
        value_accepted(v, data) <==> lo <= x <= hi,
        x == lo || x == hi ==> value_accepted(v, data),
        x == lo - 1 || x == hi + 1 ==> !value_accepted(v, data),
{
}

} // verus!
