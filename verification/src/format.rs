//! The sectioned container format of the next bytecode generation: a
//! magic header, then a LEB128 count of sections, each tagged and holding
//! strings, functions, module names or imports.

use crate::leb128::{decode, encode, spec_decode, spec_encode, DecodeError};
use crate::text::string_from_utf8;
use vstd::prelude::*;
use vstd::slice::{slice_subrange, slice_to_vec};
use vstd::string::StrSliceExecFns;
use vstd::utf8::{decode_utf8, encode_utf8, valid_utf8};

verus! {

pub const SECTION_STRINGS: u8 = 0x01;

pub const SECTION_FUNCTIONS: u8 = 0x02;

pub const SECTION_MODULES: u8 = 0x03;

pub const SECTION_IMPORTS: u8 = 0x04;

/// Why reading a container failed.
#[derive(Clone, Copy, Debug, PartialEq, Eq, Structural)]
pub enum FormatError {
    /// The four magic bytes are wrong.
    BadMagic,
    /// A section tag outside the table.
    BadSectionTag,
    /// A type tag outside the table.
    BadTypeTag,
    /// The input ended inside a field.
    Truncated,
    /// A LEB128 field too long for 64 bits.
    TooLong,
    /// A string's bytes are not valid UTF-8.
    InvalidUtf8,
}

/// A whole container: its sections in order.
pub struct Binary {
    pub sections: Vec<BinarySection>,
}

/// One section.
pub enum BinarySection {
    Strings { strings: Vec<String> },
    Functions { functions: Vec<BinaryFunction> },
    Modules { modules: Vec<String> },
    Imports { imports: Vec<BinaryImport> },
}

/// A value type in a function signature.
#[derive(Clone, Copy, Debug, PartialEq, Eq, Structural)]
pub enum BinaryType {
    Int,
    Float,
    String,
}

/// A function: name, signature and raw code.
pub struct BinaryFunction {
    pub name: String,
    pub params: Vec<BinaryType>,
    pub results: Vec<BinaryType>,
    pub code: Vec<u8>,
}

/// An import: the module's index and the imported name.
pub struct BinaryImport {
    pub module: usize,
    pub name: String,
}

/// The spec view of a function.
pub struct FunctionModel {
    pub name: Seq<char>,
    pub params: Seq<BinaryType>,
    pub results: Seq<BinaryType>,
    pub code: Seq<u8>,
}

/// The spec view of an import.
pub struct ImportModel {
    pub module: int,
    pub name: Seq<char>,
}

/// The spec view of a section.
pub enum SectionModel {
    Strings(Seq<Seq<char>>),
    Functions(Seq<FunctionModel>),
    Modules(Seq<Seq<char>>),
    Imports(Seq<ImportModel>),
}

impl BinaryFunction {
    /// The function's spec view.
    pub open spec fn model(&self) -> FunctionModel {
        FunctionModel {
            name: self.name@,
            params: self.params@,
            results: self.results@,
            code: self.code@,
        }
    }
}

impl BinaryImport {
    /// The import's spec view.
    pub open spec fn model(&self) -> ImportModel {
        ImportModel { module: self.module as int, name: self.name@ }
    }
}

impl BinarySection {
    /// The section's spec view.
    pub open spec fn model(&self) -> SectionModel {
        match self {
            BinarySection::Strings { strings } => SectionModel::Strings(strings.deep_view()),
            BinarySection::Functions { functions } => SectionModel::Functions(
                Seq::new(functions@.len(), |i: int| functions@[i].model()),
            ),
            BinarySection::Modules { modules } => SectionModel::Modules(modules.deep_view()),
            BinarySection::Imports { imports } => SectionModel::Imports(
                Seq::new(imports@.len(), |i: int| imports@[i].model()),
            ),
        }
    }
}

impl Binary {
    /// The container's spec view.
    pub open spec fn model(&self) -> Seq<SectionModel> {
        Seq::new(self.sections@.len(), |i: int| self.sections@[i].model())
    }
}

/// One length-prefixed string: its UTF-8 byte count as LEB128, then the
/// bytes.
pub open spec fn str_fmt_bytes(s: Seq<char>) -> Seq<u8> {
    spec_encode(encode_utf8(s).len() as u64) + encode_utf8(s)
}

/// A sequence of length-prefixed strings.
pub open spec fn strs_fmt_bytes(ss: Seq<Seq<char>>) -> Seq<u8>
    decreases ss.len(),
{
    if ss.len() == 0 {
        Seq::empty()
    } else {
        str_fmt_bytes(ss[0]) + strs_fmt_bytes(ss.drop_first())
    }
}

/// The tag byte of a value type.
pub open spec fn type_tag(t: BinaryType) -> u8 {
    match t {
        BinaryType::Int => 0x11,
        BinaryType::Float => 0x12,
        BinaryType::String => 0x13,
    }
}

/// The tag bytes of a signature part.
pub open spec fn types_bytes(ts: Seq<BinaryType>) -> Seq<u8> {
    Seq::new(ts.len(), |i: int| type_tag(ts[i]))
}

/// A serialized function.
pub open spec fn function_bytes(f: FunctionModel) -> Seq<u8> {
    str_fmt_bytes(f.name) + spec_encode(f.params.len() as u64) + types_bytes(f.params)
        + spec_encode(f.results.len() as u64) + types_bytes(f.results) + spec_encode(
        f.code.len() as u64,
    ) + f.code
}

/// A sequence of serialized functions.
pub open spec fn functions_bytes(fs: Seq<FunctionModel>) -> Seq<u8>
    decreases fs.len(),
{
    if fs.len() == 0 {
        Seq::empty()
    } else {
        function_bytes(fs[0]) + functions_bytes(fs.drop_first())
    }
}

/// A serialized import.
pub open spec fn import_bytes(im: ImportModel) -> Seq<u8> {
    spec_encode(im.module as u64) + str_fmt_bytes(im.name)
}

/// A sequence of serialized imports.
pub open spec fn imports_bytes(ims: Seq<ImportModel>) -> Seq<u8>
    decreases ims.len(),
{
    if ims.len() == 0 {
        Seq::empty()
    } else {
        import_bytes(ims[0]) + imports_bytes(ims.drop_first())
    }
}

/// A serialized section: its tag, an element count, the elements.
pub open spec fn section_bytes(s: SectionModel) -> Seq<u8> {
    match s {
        SectionModel::Strings(ss) => seq![SECTION_STRINGS] + spec_encode(ss.len() as u64)
            + strs_fmt_bytes(ss),
        SectionModel::Functions(fs) => seq![SECTION_FUNCTIONS] + spec_encode(fs.len() as u64)
            + functions_bytes(fs),
        SectionModel::Modules(ss) => seq![SECTION_MODULES] + spec_encode(ss.len() as u64)
            + strs_fmt_bytes(ss),
        SectionModel::Imports(ims) => seq![SECTION_IMPORTS] + spec_encode(ims.len() as u64)
            + imports_bytes(ims),
    }
}

/// The serialized sections, in order.
pub open spec fn sections_bytes(ss: Seq<SectionModel>) -> Seq<u8>
    decreases ss.len(),
{
    if ss.len() == 0 {
        Seq::empty()
    } else {
        section_bytes(ss[0]) + sections_bytes(ss.drop_first())
    }
}

/// A whole serialized container: the magic, a section count, the sections.
pub open spec fn binary_bytes(ss: Seq<SectionModel>) -> Seq<u8> {
    seq![0u8, 0x72u8, 0x74u8, 0x68u8] + spec_encode(ss.len() as u64) + sections_bytes(ss)
}

/// Writes one length-prefixed string.
pub fn write_str(write: &mut Vec<u8>, value: &str)
    ensures
        final(write)@ == old(write)@ + str_fmt_bytes(value@),
{
    let bs = value.as_bytes();
    encode(write, bs.len() as u64);
    write.extend_from_slice(bs);
    proof {
        assert(write@ =~= old(write)@ + str_fmt_bytes(value@));
    }
}

/// Reads one length-prefixed string.
pub open spec fn spec_read_str(bytes: Seq<u8>, pos: int) -> Result<(Seq<char>, int), FormatError> {
    match spec_decode(bytes, pos) {
        Err(DecodeError::Truncated) => Err(FormatError::Truncated),
        Err(DecodeError::TooLong) => Err(FormatError::TooLong),
        Ok((l, p2)) => {
            if p2 + l > bytes.len() {
                Err(FormatError::Truncated)
            } else {
                let b = bytes.subrange(p2, p2 + l);
                if !valid_utf8(b) {
                    Err(FormatError::InvalidUtf8)
                } else {
                    Some((decode_utf8(b), p2 + l)).ok_or(FormatError::Truncated)
                }
            }
        },
    }
}

/// Reads one length-prefixed string at `pos`; yields it and the position
/// past it.
pub fn read_str(read: &Vec<u8>, pos: usize) -> (r: Result<(String, usize), FormatError>)
    ensures
        match r {
            Ok((s, e)) => spec_read_str(read@, pos as int) == Ok::<(Seq<char>, int), FormatError>(
                (s@, e as int),
            ) && e <= read@.len(),
            Err(e) => spec_read_str(read@, pos as int) == Err::<(Seq<char>, int), FormatError>(e),
        },
{
    let (l, p2) = match decode(read, pos) {
        Ok(v) => v,
        Err(DecodeError::Truncated) => {
            return Err(FormatError::Truncated);
        },
        Err(DecodeError::TooLong) => {
            return Err(FormatError::TooLong);
        },
    };
    let len = read.len();
    let avail: usize = len - p2;
    if l > avail as u64 {
        return Err(FormatError::Truncated);
    }
    let lu = l as usize;
    let sub = slice_subrange(read.as_slice(), p2, p2 + lu);
    let v = slice_to_vec(sub);
    match string_from_utf8(v) {
        Some(s) => Ok((s, p2 + lu)),
        None => Err(FormatError::InvalidUtf8),
    }
}

impl BinaryType {
    /// Writes the type's tag byte.
    pub fn write(&self, write: &mut Vec<u8>)
        ensures
            final(write)@ == old(write)@ + seq![type_tag(*self)],
    {
        match self {
            BinaryType::Int => write.push(0x11),
            BinaryType::Float => write.push(0x12),
            BinaryType::String => write.push(0x13),
        }
        proof {
            assert(write@ =~= old(write)@ + seq![type_tag(*self)]);
        }
    }

    /// Reads one type tag.
    pub fn read(read: &Vec<u8>, pos: usize) -> (r: Result<(BinaryType, usize), FormatError>)
        ensures
            match r {
                Ok((t, e)) => spec_read_type(read@, pos as int) == Ok::<
                    (BinaryType, int),
                    FormatError,
                >((t, e as int)) && e <= read@.len(),
                Err(e) => spec_read_type(read@, pos as int) == Err::<
                    (BinaryType, int),
                    FormatError,
                >(e),
            },
    {
        if pos >= read.len() {
            return Err(FormatError::Truncated);
        }
        let b = read[pos];
        if b == 0x11 {
            Ok((BinaryType::Int, pos + 1))
        } else if b == 0x12 {
            Ok((BinaryType::Float, pos + 1))
        } else if b == 0x13 {
            Ok((BinaryType::String, pos + 1))
        } else {
            Err(FormatError::BadTypeTag)
        }
    }
}

/// Reads one type tag.
pub open spec fn spec_read_type(bytes: Seq<u8>, pos: int) -> Result<
    (BinaryType, int),
    FormatError,
> {
    if pos < 0 || pos >= bytes.len() {
        Err(FormatError::Truncated)
    } else if bytes[pos] == 0x11 {
        Ok((BinaryType::Int, pos + 1))
    } else if bytes[pos] == 0x12 {
        Ok((BinaryType::Float, pos + 1))
    } else if bytes[pos] == 0x13 {
        Ok((BinaryType::String, pos + 1))
    } else {
        Err(FormatError::BadTypeTag)
    }
}

/// Reads `n` type tags.
pub open spec fn spec_read_types(bytes: Seq<u8>, pos: int, n: int) -> Result<
    (Seq<BinaryType>, int),
    FormatError,
>
    decreases n,
{
    if n <= 0 {
        Ok((Seq::empty(), pos))
    } else {
        match spec_read_type(bytes, pos) {
            Err(e) => Err(e),
            Ok((t, p2)) => match spec_read_types(bytes, p2, n - 1) {
                Err(e) => Err(e),
                Ok((rest, e2)) => Ok((seq![t] + rest, e2)),
            },
        }
    }
}

/// Reads `n` type tags into a vector.
fn read_types(read: &Vec<u8>, pos: usize, n: u64) -> (r: Result<(Vec<BinaryType>, usize), FormatError>)
    requires
        pos <= read@.len(),
    ensures
        match r {
            Ok((ts, e)) => spec_read_types(read@, pos as int, n as int) == Ok::<
                (Seq<BinaryType>, int),
                FormatError,
            >((ts@, e as int)) && e <= read@.len(),
            Err(e) => spec_read_types(read@, pos as int, n as int) == Err::<
                (Seq<BinaryType>, int),
                FormatError,
            >(e),
        },
{
    let mut out: Vec<BinaryType> = Vec::new();
    let mut cur = pos;
    let mut i: u64 = 0;
    while i < n
        invariant
            0 <= i <= n,
            cur <= read@.len(),
            match spec_read_types(read@, cur as int, n - i) {
                Ok((rest, e)) => spec_read_types(read@, pos as int, n as int) == Ok::<
                    (Seq<BinaryType>, int),
                    FormatError,
                >((out@ + rest, e)),
                Err(e) => spec_read_types(read@, pos as int, n as int) == Err::<
                    (Seq<BinaryType>, int),
                    FormatError,
                >(e),
            },
        decreases n - i,
    {
        let ghost gpre = out@;
        match BinaryType::read(read, cur) {
            Ok((t, e)) => {
                out.push(t);
                cur = e;
                proof {
                    assert(gpre + (seq![t] + rest_types(read@, cur as int, n - i - 1)) =~= gpre.push(
                        t,
                    ) + rest_types(read@, cur as int, n - i - 1));
                }
            },
            Err(e) => {
                return Err(e);
            },
        }
        i = i + 1;
    }
    proof {
        assert(out@ + Seq::<BinaryType>::empty() =~= out@);
    }
    Ok((out, cur))
}

/// The type tags still ahead; loop bookkeeping.
pub open spec fn rest_types(bytes: Seq<u8>, pos: int, n: int) -> Seq<BinaryType> {
    match spec_read_types(bytes, pos, n) {
        Ok((rest, _)) => rest,
        Err(_) => Seq::empty(),
    }
}

impl BinaryFunction {
    /// Writes the function: name, signature, code.
    pub fn write(&self, write: &mut Vec<u8>)
        ensures
            final(write)@ == old(write)@ + function_bytes(self.model()),
    {
        write_str(write, self.name.as_str());
        encode(write, self.params.len() as u64);
        let mut i: usize = 0;
        let ghost base = write@;
        proof {
            assert(write@ =~= base + types_bytes(self.params@.take(0)));
        }
        while i < self.params.len()
            invariant
                0 <= i <= self.params@.len(),
                write@ == base + types_bytes(self.params@.take(i as int)),
            decreases self.params@.len() - i,
        {
            self.params[i].write(write);
            proof {
                assert(write@ =~= base + types_bytes(self.params@.take(i as int + 1)));
            }
            i = i + 1;
        }
        proof {
            assert(self.params@.take(self.params@.len() as int) =~= self.params@);
        }
        encode(write, self.results.len() as u64);
        let ghost base2 = write@;
        let mut j: usize = 0;
        proof {
            assert(write@ =~= base2 + types_bytes(self.results@.take(0)));
        }
        while j < self.results.len()
            invariant
                0 <= j <= self.results@.len(),
                write@ == base2 + types_bytes(self.results@.take(j as int)),
            decreases self.results@.len() - j,
        {
            self.results[j].write(write);
            proof {
                assert(write@ =~= base2 + types_bytes(self.results@.take(j as int + 1)));
            }
            j = j + 1;
        }
        proof {
            assert(self.results@.take(self.results@.len() as int) =~= self.results@);
        }
        encode(write, self.code.len() as u64);
        write.extend_from_slice(self.code.as_slice());
        proof {
            assert(write@ =~= old(write)@ + function_bytes(self.model()));
        }
    }

    /// Reads one function.
    pub fn read(read: &Vec<u8>, pos: usize) -> (r: Result<(BinaryFunction, usize), FormatError>)
        requires
            pos <= read@.len(),
        ensures
            match r {
                Ok((f, e)) => spec_read_function(read@, pos as int) == Ok::<
                    (FunctionModel, int),
                    FormatError,
                >((f.model(), e as int)) && e <= read@.len(),
                Err(e) => spec_read_function(read@, pos as int) == Err::<
                    (FunctionModel, int),
                    FormatError,
                >(e),
            },
    {
        let (name, p1) = match read_str(read, pos) {
            Ok(v) => v,
            Err(e) => {
                return Err(e);
            },
        };
        let (np, p2) = match decode(read, p1) {
            Ok(v) => v,
            Err(e) => {
                return Err(leb_err(e));
            },
        };
        let (params, p3) = match read_types(read, p2, np) {
            Ok(v) => v,
            Err(e) => {
                return Err(e);
            },
        };
        let (nr, p4) = match decode(read, p3) {
            Ok(v) => v,
            Err(e) => {
                return Err(leb_err(e));
            },
        };
        let (results, p5) = match read_types(read, p4, nr) {
            Ok(v) => v,
            Err(e) => {
                return Err(e);
            },
        };
        let (nc, p6) = match decode(read, p5) {
            Ok(v) => v,
            Err(e) => {
                return Err(leb_err(e));
            },
        };
        let len = read.len();
        let avail: usize = len - p6;
        if nc > avail as u64 {
            return Err(FormatError::Truncated);
        }
        let ncu = nc as usize;
        let code = slice_to_vec(slice_subrange(read.as_slice(), p6, p6 + ncu));
        Ok((BinaryFunction { name, params, results, code }, p6 + ncu))
    }
}

/// Maps a LEB128 fault to a container fault.
fn leb_err(e: DecodeError) -> (r: FormatError)
    ensures
        r == spec_leb_err(e),
{
    match e {
        DecodeError::Truncated => FormatError::Truncated,
        DecodeError::TooLong => FormatError::TooLong,
    }
}

/// The container fault a LEB128 fault maps to.
pub open spec fn spec_leb_err(e: DecodeError) -> FormatError {
    match e {
        DecodeError::Truncated => FormatError::Truncated,
        DecodeError::TooLong => FormatError::TooLong,
    }
}

/// Reads one function.
pub open spec fn spec_read_function(bytes: Seq<u8>, pos: int) -> Result<
    (FunctionModel, int),
    FormatError,
> {
    match spec_read_str(bytes, pos) {
        Err(e) => Err(e),
        Ok((name, p1)) => match spec_decode(bytes, p1) {
            Err(e) => Err(spec_leb_err(e)),
            Ok((np, p2)) => match spec_read_types(bytes, p2, np as int) {
                Err(e) => Err(e),
                Ok((params, p3)) => match spec_decode(bytes, p3) {
                    Err(e) => Err(spec_leb_err(e)),
                    Ok((nr, p4)) => match spec_read_types(bytes, p4, nr as int) {
                        Err(e) => Err(e),
                        Ok((results, p5)) => match spec_decode(bytes, p5) {
                            Err(e) => Err(spec_leb_err(e)),
                            Ok((nc, p6)) => {
                                if p6 + nc > bytes.len() {
                                    Err(FormatError::Truncated)
                                } else {
                                    Ok(
                                        (
                                            FunctionModel {
                                                name,
                                                params,
                                                results,
                                                code: bytes.subrange(p6, p6 + nc),
                                            },
                                            p6 + nc,
                                        ),
                                    )
                                }
                            },
                        },
                    },
                },
            },
        },
    }
}

impl BinaryImport {
    /// Writes the import: module index, then name.
    pub fn write(&self, write: &mut Vec<u8>)
        ensures
            final(write)@ == old(write)@ + import_bytes(self.model()),
    {
        encode(write, self.module as u64);
        write_str(write, self.name.as_str());
        proof {
            assert(write@ =~= old(write)@ + import_bytes(self.model()));
        }
    }

    /// Reads one import. An index beyond the machine's range is reported
    /// as truncation.
    pub fn read(read: &Vec<u8>, pos: usize) -> (r: Result<(BinaryImport, usize), FormatError>)
        ensures
            match r {
                Ok((im, e)) => spec_read_import(read@, pos as int) == Ok::<
                    (ImportModel, int),
                    FormatError,
                >((im.model(), e as int)) && e <= read@.len(),
                Err(e) => spec_read_import(read@, pos as int) == Err::<
                    (ImportModel, int),
                    FormatError,
                >(e),
            },
    {
        let (module, p1) = match decode(read, pos) {
            Ok(v) => v,
            Err(e) => {
                return Err(leb_err(e));
            },
        };
        if module > (usize::MAX as u64) {
            return Err(FormatError::Truncated);
        }
        let (name, p2) = match read_str(read, p1) {
            Ok(v) => v,
            Err(e) => {
                return Err(e);
            },
        };
        Ok((BinaryImport { module: module as usize, name }, p2))
    }
}

/// Reads one import.
pub open spec fn spec_read_import(bytes: Seq<u8>, pos: int) -> Result<
    (ImportModel, int),
    FormatError,
> {
    match spec_decode(bytes, pos) {
        Err(e) => Err(spec_leb_err(e)),
        Ok((module, p1)) => {
            if module > usize::MAX as u64 {
                Err(FormatError::Truncated)
            } else {
                match spec_read_str(bytes, p1) {
                    Err(e) => Err(e),
                    Ok((name, p2)) => Ok((ImportModel { module: module as int, name }, p2)),
                }
            }
        },
    }
}

/// Reads `n` length-prefixed strings.
pub open spec fn spec_read_strs(bytes: Seq<u8>, pos: int, n: int) -> Result<
    (Seq<Seq<char>>, int),
    FormatError,
>
    decreases n,
{
    if n <= 0 {
        Ok((Seq::empty(), pos))
    } else {
        match spec_read_str(bytes, pos) {
            Err(e) => Err(e),
            Ok((s, p2)) => match spec_read_strs(bytes, p2, n - 1) {
                Err(e) => Err(e),
                Ok((rest, e2)) => Ok((seq![s] + rest, e2)),
            },
        }
    }
}

/// The strings still ahead; loop bookkeeping.
pub open spec fn rest_strs(bytes: Seq<u8>, pos: int, n: int) -> Seq<Seq<char>> {
    match spec_read_strs(bytes, pos, n) {
        Ok((rest, _)) => rest,
        Err(_) => Seq::empty(),
    }
}

/// Reads `n` length-prefixed strings into a vector.
fn read_strs(read: &Vec<u8>, pos: usize, n: u64) -> (r: Result<(Vec<String>, usize), FormatError>)
    requires
        pos <= read@.len(),
    ensures
        match r {
            Ok((ss, e)) => spec_read_strs(read@, pos as int, n as int) == Ok::<
                (Seq<Seq<char>>, int),
                FormatError,
            >((ss.deep_view(), e as int)) && e <= read@.len(),
            Err(e) => spec_read_strs(read@, pos as int, n as int) == Err::<
                (Seq<Seq<char>>, int),
                FormatError,
            >(e),
        },
{
    let mut out: Vec<String> = Vec::new();
    let mut cur = pos;
    let mut i: u64 = 0;
    while i < n
        invariant
            0 <= i <= n,
            cur <= read@.len(),
            match spec_read_strs(read@, cur as int, n - i) {
                Ok((rest, e)) => spec_read_strs(read@, pos as int, n as int) == Ok::<
                    (Seq<Seq<char>>, int),
                    FormatError,
                >((out.deep_view() + rest, e)),
                Err(e) => spec_read_strs(read@, pos as int, n as int) == Err::<
                    (Seq<Seq<char>>, int),
                    FormatError,
                >(e),
            },
        decreases n - i,
    {
        let ghost dpre = out.deep_view();
        match read_str(read, cur) {
            Ok((s, e)) => {
                let ghost sv = s@;
                out.push(s);
                cur = e;
                proof {
                    assert(out.deep_view() =~~= dpre.push(sv));
                    assert(dpre + (seq![sv] + rest_strs(read@, cur as int, n - i - 1)) =~= dpre.push(
                        sv,
                    ) + rest_strs(read@, cur as int, n - i - 1));
                }
            },
            Err(e) => {
                return Err(e);
            },
        }
        i = i + 1;
    }
    proof {
        assert(out.deep_view() + Seq::<Seq<char>>::empty() =~= out.deep_view());
    }
    Ok((out, cur))
}

/// Reads `n` functions.
pub open spec fn spec_read_functions(bytes: Seq<u8>, pos: int, n: int) -> Result<
    (Seq<FunctionModel>, int),
    FormatError,
>
    decreases n,
{
    if n <= 0 {
        Ok((Seq::empty(), pos))
    } else {
        match spec_read_function(bytes, pos) {
            Err(e) => Err(e),
            Ok((f, p2)) => match spec_read_functions(bytes, p2, n - 1) {
                Err(e) => Err(e),
                Ok((rest, e2)) => Ok((seq![f] + rest, e2)),
            },
        }
    }
}

/// The functions still ahead; loop bookkeeping.
pub open spec fn rest_functions(bytes: Seq<u8>, pos: int, n: int) -> Seq<FunctionModel> {
    match spec_read_functions(bytes, pos, n) {
        Ok((rest, _)) => rest,
        Err(_) => Seq::empty(),
    }
}

/// Reads `n` functions into a vector.
fn read_functions(read: &Vec<u8>, pos: usize, n: u64) -> (r: Result<
    (Vec<BinaryFunction>, usize),
    FormatError,
>)
    requires
        pos <= read@.len(),
    ensures
        match r {
            Ok((fs, e)) => spec_read_functions(read@, pos as int, n as int) == Ok::<
                (Seq<FunctionModel>, int),
                FormatError,
            >((Seq::new(fs@.len(), |i: int| fs@[i].model()), e as int)) && e <= read@.len(),
            Err(e) => spec_read_functions(read@, pos as int, n as int) == Err::<
                (Seq<FunctionModel>, int),
                FormatError,
            >(e),
        },
{
    let mut out: Vec<BinaryFunction> = Vec::new();
    let mut cur = pos;
    let mut i: u64 = 0;
    while i < n
        invariant
            0 <= i <= n,
            cur <= read@.len(),
            match spec_read_functions(read@, cur as int, n - i) {
                Ok((rest, e)) => spec_read_functions(read@, pos as int, n as int) == Ok::<
                    (Seq<FunctionModel>, int),
                    FormatError,
                >((Seq::new(out@.len(), |q: int| out@[q].model()) + rest, e)),
                Err(e) => spec_read_functions(read@, pos as int, n as int) == Err::<
                    (Seq<FunctionModel>, int),
                    FormatError,
                >(e),
            },
        decreases n - i,
    {
        let ghost dpre = Seq::new(out@.len(), |q: int| out@[q].model());
        match BinaryFunction::read(read, cur) {
            Ok((f, e)) => {
                let ghost fm = f.model();
                out.push(f);
                cur = e;
                proof {
                    assert(Seq::new(out@.len(), |q: int| out@[q].model()) =~= dpre.push(fm));
                    assert(dpre + (seq![fm] + rest_functions(read@, cur as int, n - i - 1))
                        =~= dpre.push(fm) + rest_functions(read@, cur as int, n - i - 1));
                }
            },
            Err(e) => {
                return Err(e);
            },
        }
        i = i + 1;
    }
    proof {
        let fin = Seq::new(out@.len(), |q: int| out@[q].model());
        assert(fin + Seq::<FunctionModel>::empty() =~= fin);
    }
    Ok((out, cur))
}

/// Reads `n` imports.
pub open spec fn spec_read_imports(bytes: Seq<u8>, pos: int, n: int) -> Result<
    (Seq<ImportModel>, int),
    FormatError,
>
    decreases n,
{
    if n <= 0 {
        Ok((Seq::empty(), pos))
    } else {
        match spec_read_import(bytes, pos) {
            Err(e) => Err(e),
            Ok((im, p2)) => match spec_read_imports(bytes, p2, n - 1) {
                Err(e) => Err(e),
                Ok((rest, e2)) => Ok((seq![im] + rest, e2)),
            },
        }
    }
}

/// The imports still ahead; loop bookkeeping.
pub open spec fn rest_imports(bytes: Seq<u8>, pos: int, n: int) -> Seq<ImportModel> {
    match spec_read_imports(bytes, pos, n) {
        Ok((rest, _)) => rest,
        Err(_) => Seq::empty(),
    }
}

/// Reads `n` imports into a vector.
fn read_imports(read: &Vec<u8>, pos: usize, n: u64) -> (r: Result<
    (Vec<BinaryImport>, usize),
    FormatError,
>)
    requires
        pos <= read@.len(),
    ensures
        match r {
            Ok((ims, e)) => spec_read_imports(read@, pos as int, n as int) == Ok::<
                (Seq<ImportModel>, int),
                FormatError,
            >((Seq::new(ims@.len(), |i: int| ims@[i].model()), e as int)) && e <= read@.len(),
            Err(e) => spec_read_imports(read@, pos as int, n as int) == Err::<
                (Seq<ImportModel>, int),
                FormatError,
            >(e),
        },
{
    let mut out: Vec<BinaryImport> = Vec::new();
    let mut cur = pos;
    let mut i: u64 = 0;
    while i < n
        invariant
            0 <= i <= n,
            cur <= read@.len(),
            match spec_read_imports(read@, cur as int, n - i) {
                Ok((rest, e)) => spec_read_imports(read@, pos as int, n as int) == Ok::<
                    (Seq<ImportModel>, int),
                    FormatError,
                >((Seq::new(out@.len(), |q: int| out@[q].model()) + rest, e)),
                Err(e) => spec_read_imports(read@, pos as int, n as int) == Err::<
                    (Seq<ImportModel>, int),
                    FormatError,
                >(e),
            },
        decreases n - i,
    {
        let ghost dpre = Seq::new(out@.len(), |q: int| out@[q].model());
        match BinaryImport::read(read, cur) {
            Ok((im, e)) => {
                let ghost imm = im.model();
                out.push(im);
                cur = e;
                proof {
                    assert(Seq::new(out@.len(), |q: int| out@[q].model()) =~= dpre.push(imm));
                    assert(dpre + (seq![imm] + rest_imports(read@, cur as int, n - i - 1))
                        =~= dpre.push(imm) + rest_imports(read@, cur as int, n - i - 1));
                }
            },
            Err(e) => {
                return Err(e);
            },
        }
        i = i + 1;
    }
    proof {
        let fin = Seq::new(out@.len(), |q: int| out@[q].model());
        assert(fin + Seq::<ImportModel>::empty() =~= fin);
    }
    Ok((out, cur))
}

/// Reads one section: tag, count, elements.
pub open spec fn spec_read_section(bytes: Seq<u8>, pos: int) -> Result<
    (SectionModel, int),
    FormatError,
> {
    if pos < 0 || pos >= bytes.len() {
        Err(FormatError::Truncated)
    } else {
        let tag = bytes[pos];
        if tag != SECTION_STRINGS && tag != SECTION_FUNCTIONS && tag != SECTION_MODULES && tag
            != SECTION_IMPORTS {
            Err(FormatError::BadSectionTag)
        } else {
            match spec_decode(bytes, pos + 1) {
            Err(e) => Err(spec_leb_err(e)),
            Ok((n, p2)) => {
                if tag == SECTION_STRINGS {
                    match spec_read_strs(bytes, p2, n as int) {
                        Err(e) => Err(e),
                        Ok((ss, e2)) => Ok((SectionModel::Strings(ss), e2)),
                    }
                } else if tag == SECTION_FUNCTIONS {
                    match spec_read_functions(bytes, p2, n as int) {
                        Err(e) => Err(e),
                        Ok((fs, e2)) => Ok((SectionModel::Functions(fs), e2)),
                    }
                } else if tag == SECTION_MODULES {
                    match spec_read_strs(bytes, p2, n as int) {
                        Err(e) => Err(e),
                        Ok((ss, e2)) => Ok((SectionModel::Modules(ss), e2)),
                    }
                } else if tag == SECTION_IMPORTS {
                    match spec_read_imports(bytes, p2, n as int) {
                        Err(e) => Err(e),
                        Ok((ims, e2)) => Ok((SectionModel::Imports(ims), e2)),
                    }
                } else {
                    Err(FormatError::BadSectionTag)
                }
            },
        }
        }
    }
}

impl BinarySection {
    /// Writes the section: tag, element count, elements.
    pub fn write(&self, write: &mut Vec<u8>)
        ensures
            final(write)@ == old(write)@ + section_bytes(self.model()),
    {
        match self {
            BinarySection::Strings { strings } => {
                write.push(SECTION_STRINGS);
                encode(write, strings.len() as u64);
                let ghost base = write@;
                let mut i: usize = 0;
                proof {
                    assert(strs_fmt_bytes(strings.deep_view().take(0)) =~= Seq::<u8>::empty());
                    assert(write@ =~= base + strs_fmt_bytes(strings.deep_view().take(0)));
                }
                while i < strings.len()
                    invariant
                        0 <= i <= strings@.len(),
                        write@ == base + strs_fmt_bytes(strings.deep_view().take(i as int)),
                        strings.deep_view().len() == strings@.len(),
                    decreases strings@.len() - i,
                {
                    write_str(write, strings[i].as_str());
                    proof {
                        lemma_strs_snoc(strings.deep_view().take(i as int), strings@[i as int]@);
                        assert(strings.deep_view().take(i as int + 1) =~= strings.deep_view().take(
                            i as int,
                        ).push(strings@[i as int]@));
                        assert(strings.deep_view()[i as int] =~= strings@[i as int]@);
                    }
                    i = i + 1;
                }
                proof {
                    assert(strings.deep_view().take(strings@.len() as int) =~= strings.deep_view());
                    assert(write@ =~= old(write)@ + section_bytes(self.model()));
                }
            },
            BinarySection::Functions { functions } => {
                write.push(SECTION_FUNCTIONS);
                encode(write, functions.len() as u64);
                let ghost fsm = Seq::new(functions@.len(), |q: int| functions@[q].model());
                let ghost base = write@;
                let mut i: usize = 0;
                proof {
                    assert(functions_bytes(fsm.take(0)) =~= Seq::<u8>::empty());
                    assert(write@ =~= base + functions_bytes(fsm.take(0)));
                }
                while i < functions.len()
                    invariant
                        0 <= i <= functions@.len(),
                        fsm == Seq::new(functions@.len(), |q: int| functions@[q].model()),
                        fsm.len() == functions@.len(),
                        write@ == base + functions_bytes(fsm.take(i as int)),
                    decreases functions@.len() - i,
                {
                    functions[i].write(write);
                    proof {
                        lemma_functions_snoc(fsm.take(i as int), fsm[i as int]);
                        assert(fsm.take(i as int + 1) =~= fsm.take(i as int).push(fsm[i as int]));
                    }
                    i = i + 1;
                }
                proof {
                    assert(fsm.take(functions@.len() as int) =~= fsm);
                    assert(write@ =~= old(write)@ + section_bytes(self.model()));
                }
            },
            BinarySection::Modules { modules } => {
                write.push(SECTION_MODULES);
                encode(write, modules.len() as u64);
                let ghost base = write@;
                let mut i: usize = 0;
                proof {
                    assert(strs_fmt_bytes(modules.deep_view().take(0)) =~= Seq::<u8>::empty());
                    assert(write@ =~= base + strs_fmt_bytes(modules.deep_view().take(0)));
                }
                while i < modules.len()
                    invariant
                        0 <= i <= modules@.len(),
                        write@ == base + strs_fmt_bytes(modules.deep_view().take(i as int)),
                        modules.deep_view().len() == modules@.len(),
                    decreases modules@.len() - i,
                {
                    write_str(write, modules[i].as_str());
                    proof {
                        lemma_strs_snoc(modules.deep_view().take(i as int), modules@[i as int]@);
                        assert(modules.deep_view().take(i as int + 1) =~= modules.deep_view().take(
                            i as int,
                        ).push(modules@[i as int]@));
                        assert(modules.deep_view()[i as int] =~= modules@[i as int]@);
                    }
                    i = i + 1;
                }
                proof {
                    assert(modules.deep_view().take(modules@.len() as int) =~= modules.deep_view());
                    assert(write@ =~= old(write)@ + section_bytes(self.model()));
                }
            },
            BinarySection::Imports { imports } => {
                write.push(SECTION_IMPORTS);
                encode(write, imports.len() as u64);
                let ghost imm = Seq::new(imports@.len(), |q: int| imports@[q].model());
                let ghost base = write@;
                let mut i: usize = 0;
                proof {
                    assert(imports_bytes(imm.take(0)) =~= Seq::<u8>::empty());
                    assert(write@ =~= base + imports_bytes(imm.take(0)));
                }
                while i < imports.len()
                    invariant
                        0 <= i <= imports@.len(),
                        imm == Seq::new(imports@.len(), |q: int| imports@[q].model()),
                        imm.len() == imports@.len(),
                        write@ == base + imports_bytes(imm.take(i as int)),
                    decreases imports@.len() - i,
                {
                    imports[i].write(write);
                    proof {
                        lemma_imports_snoc(imm.take(i as int), imm[i as int]);
                        assert(imm.take(i as int + 1) =~= imm.take(i as int).push(imm[i as int]));
                    }
                    i = i + 1;
                }
                proof {
                    assert(imm.take(imports@.len() as int) =~= imm);
                    assert(write@ =~= old(write)@ + section_bytes(self.model()));
                }
            },
        }
    }

    /// Reads one section.
    pub fn read(read: &Vec<u8>, pos: usize) -> (r: Result<(BinarySection, usize), FormatError>)
        requires
            pos <= read@.len(),
        ensures
            match r {
                Ok((s, e)) => spec_read_section(read@, pos as int) == Ok::<
                    (SectionModel, int),
                    FormatError,
                >((s.model(), e as int)) && e <= read@.len(),
                Err(e) => spec_read_section(read@, pos as int) == Err::<
                    (SectionModel, int),
                    FormatError,
                >(e),
            },
    {
        if pos >= read.len() {
            return Err(FormatError::Truncated);
        }
        let tag = read[pos];
        if tag != SECTION_STRINGS && tag != SECTION_FUNCTIONS && tag != SECTION_MODULES && tag
            != SECTION_IMPORTS {
            return Err(FormatError::BadSectionTag);
        }
        let (n, p2) = match decode(read, pos + 1) {
            Ok(v) => v,
            Err(e) => {
                return Err(leb_err(e));
            },
        };
        if tag == SECTION_STRINGS {
            match read_strs(read, p2, n) {
                Ok((strings, e2)) => Ok((BinarySection::Strings { strings }, e2)),
                Err(e) => Err(e),
            }
        } else if tag == SECTION_FUNCTIONS {
            match read_functions(read, p2, n) {
                Ok((functions, e2)) => Ok((BinarySection::Functions { functions }, e2)),
                Err(e) => Err(e),
            }
        } else if tag == SECTION_MODULES {
            match read_strs(read, p2, n) {
                Ok((modules, e2)) => Ok((BinarySection::Modules { modules }, e2)),
                Err(e) => Err(e),
            }
        } else if tag == SECTION_IMPORTS {
            match read_imports(read, p2, n) {
                Ok((imports, e2)) => Ok((BinarySection::Imports { imports }, e2)),
                Err(e) => Err(e),
            }
        } else {
            Err(FormatError::BadSectionTag)
        }
    }
}

proof fn lemma_strs_snoc(ss: Seq<Seq<char>>, x: Seq<char>)
    ensures
        strs_fmt_bytes(ss.push(x)) == strs_fmt_bytes(ss) + str_fmt_bytes(x),
    decreases ss.len(),
{
    if ss.len() == 0 {
        assert(ss.push(x)[0] == x);
        assert(ss.push(x).drop_first() =~= Seq::<Seq<char>>::empty());
        assert(strs_fmt_bytes(Seq::<Seq<char>>::empty()) =~= Seq::<u8>::empty());
        assert(strs_fmt_bytes(ss.push(x)) =~= str_fmt_bytes(x));
        assert(strs_fmt_bytes(ss) + str_fmt_bytes(x) =~= str_fmt_bytes(x));
    } else {
        assert(ss.push(x)[0] == ss[0]);
        assert(ss.push(x).drop_first() =~= ss.drop_first().push(x));
        lemma_strs_snoc(ss.drop_first(), x);
        assert(strs_fmt_bytes(ss.push(x)) =~= strs_fmt_bytes(ss) + str_fmt_bytes(x));
    }
}

proof fn lemma_functions_snoc(fs: Seq<FunctionModel>, x: FunctionModel)
    ensures
        functions_bytes(fs.push(x)) == functions_bytes(fs) + function_bytes(x),
    decreases fs.len(),
{
    if fs.len() == 0 {
        assert(fs.push(x)[0] == x);
        assert(fs.push(x).drop_first() =~= Seq::<FunctionModel>::empty());
        assert(functions_bytes(Seq::<FunctionModel>::empty()) =~= Seq::<u8>::empty());
        assert(functions_bytes(fs.push(x)) =~= function_bytes(x));
        assert(functions_bytes(fs) + function_bytes(x) =~= function_bytes(x));
    } else {
        assert(fs.push(x)[0] == fs[0]);
        assert(fs.push(x).drop_first() =~= fs.drop_first().push(x));
        lemma_functions_snoc(fs.drop_first(), x);
        assert(functions_bytes(fs.push(x)) =~= functions_bytes(fs) + function_bytes(x));
    }
}

proof fn lemma_imports_snoc(ims: Seq<ImportModel>, x: ImportModel)
    ensures
        imports_bytes(ims.push(x)) == imports_bytes(ims) + import_bytes(x),
    decreases ims.len(),
{
    if ims.len() == 0 {
        assert(ims.push(x)[0] == x);
        assert(ims.push(x).drop_first() =~= Seq::<ImportModel>::empty());
        assert(imports_bytes(Seq::<ImportModel>::empty()) =~= Seq::<u8>::empty());
        assert(imports_bytes(ims.push(x)) =~= import_bytes(x));
        assert(imports_bytes(ims) + import_bytes(x) =~= import_bytes(x));
    } else {
        assert(ims.push(x)[0] == ims[0]);
        assert(ims.push(x).drop_first() =~= ims.drop_first().push(x));
        lemma_imports_snoc(ims.drop_first(), x);
        assert(imports_bytes(ims.push(x)) =~= imports_bytes(ims) + import_bytes(x));
    }
}

/// Reads `n` sections.
pub open spec fn spec_read_sections(bytes: Seq<u8>, pos: int, n: int) -> Result<
    (Seq<SectionModel>, int),
    FormatError,
>
    decreases n,
{
    if n <= 0 {
        Ok((Seq::empty(), pos))
    } else {
        match spec_read_section(bytes, pos) {
            Err(e) => Err(e),
            Ok((s, p2)) => match spec_read_sections(bytes, p2, n - 1) {
                Err(e) => Err(e),
                Ok((rest, e2)) => Ok((seq![s] + rest, e2)),
            },
        }
    }
}

/// The sections still ahead; loop bookkeeping.
pub open spec fn rest_sections(bytes: Seq<u8>, pos: int, n: int) -> Seq<SectionModel> {
    match spec_read_sections(bytes, pos, n) {
        Ok((rest, _)) => rest,
        Err(_) => Seq::empty(),
    }
}

/// Reads a whole container: the magic, a section count, the sections.
pub open spec fn spec_read_binary(bytes: Seq<u8>) -> Result<(Seq<SectionModel>, int), FormatError> {
    if bytes.len() < 4 {
        Err(FormatError::Truncated)
    } else if !(bytes[0] == 0 && bytes[1] == 0x72 && bytes[2] == 0x74 && bytes[3] == 0x68) {
        Err(FormatError::BadMagic)
    } else {
        match spec_decode(bytes, 4) {
            Err(e) => Err(spec_leb_err(e)),
            Ok((n, p2)) => spec_read_sections(bytes, p2, n as int),
        }
    }
}

impl Binary {
    /// Writes the container: the magic, the section count, each section.
    pub fn write(&self, write: &mut Vec<u8>)
        ensures
            final(write)@ == old(write)@ + binary_bytes(self.model()),
    {
        write.push(0);
        write.push(0x72);
        write.push(0x74);
        write.push(0x68);
        encode(write, self.sections.len() as u64);
        let ghost sm = self.model();
        let ghost base = write@;
        let mut i: usize = 0;
        proof {
            assert(sections_bytes(sm.take(0)) =~= Seq::<u8>::empty());
            assert(write@ =~= base + sections_bytes(sm.take(0)));
        }
        while i < self.sections.len()
            invariant
                0 <= i <= self.sections@.len(),
                sm == self.model(),
                sm.len() == self.sections@.len(),
                write@ == base + sections_bytes(sm.take(i as int)),
            decreases self.sections@.len() - i,
        {
            self.sections[i].write(write);
            proof {
                lemma_sections_snoc(sm.take(i as int), sm[i as int]);
                assert(sm.take(i as int + 1) =~= sm.take(i as int).push(sm[i as int]));
            }
            i = i + 1;
        }
        proof {
            assert(sm.take(self.sections@.len() as int) =~= sm);
            assert(write@ =~= old(write)@ + binary_bytes(self.model()));
        }
    }

    /// Reads a whole container.
    pub fn read(read: &Vec<u8>) -> (r: Result<(Binary, usize), FormatError>)
        ensures
            match r {
                Ok((b, e)) => spec_read_binary(read@) == Ok::<
                    (Seq<SectionModel>, int),
                    FormatError,
                >((b.model(), e as int)),
                Err(e) => spec_read_binary(read@) == Err::<(Seq<SectionModel>, int), FormatError>(
                    e,
                ),
            },
    {
        if read.len() < 4 {
            return Err(FormatError::Truncated);
        }
        if !(read[0] == 0 && read[1] == 0x72 && read[2] == 0x74 && read[3] == 0x68) {
            return Err(FormatError::BadMagic);
        }
        let (n, p2) = match decode(read, 4) {
            Ok(v) => v,
            Err(e) => {
                return Err(leb_err(e));
            },
        };
        let mut out: Vec<BinarySection> = Vec::new();
        let mut cur = p2;
        let mut i: u64 = 0;
        while i < n
            invariant
                0 <= i <= n,
                cur <= read@.len(),
                match spec_read_sections(read@, cur as int, n - i) {
                    Ok((rest, e)) => spec_read_binary(read@) == Ok::<
                        (Seq<SectionModel>, int),
                        FormatError,
                    >((Seq::new(out@.len(), |q: int| out@[q].model()) + rest, e)),
                    Err(e) => spec_read_binary(read@) == Err::<
                        (Seq<SectionModel>, int),
                        FormatError,
                    >(e),
                },
            decreases n - i,
        {
            let ghost dpre = Seq::new(out@.len(), |q: int| out@[q].model());
            match BinarySection::read(read, cur) {
                Ok((s, e)) => {
                    let ghost smm = s.model();
                    out.push(s);
                    cur = e;
                    proof {
                        assert(Seq::new(out@.len(), |q: int| out@[q].model()) =~= dpre.push(smm));
                        assert(dpre + (seq![smm] + rest_sections(read@, cur as int, n - i - 1))
                            =~= dpre.push(smm) + rest_sections(read@, cur as int, n - i - 1));
                    }
                },
                Err(e) => {
                    return Err(e);
                },
            }
            i = i + 1;
        }
        proof {
            let fin = Seq::new(out@.len(), |q: int| out@[q].model());
            assert(fin + Seq::<SectionModel>::empty() =~= fin);
        }
        let b = Binary { sections: out };
        proof {
            assert(b.model() =~= Seq::new(b.sections@.len(), |q: int| b.sections@[q].model()));
        }
        Ok((b, cur))
    }
}

proof fn lemma_sections_snoc(ss: Seq<SectionModel>, x: SectionModel)
    ensures
        sections_bytes(ss.push(x)) == sections_bytes(ss) + section_bytes(x),
    decreases ss.len(),
{
    if ss.len() == 0 {
        assert(ss.push(x)[0] == x);
        assert(ss.push(x).drop_first() =~= Seq::<SectionModel>::empty());
        assert(sections_bytes(Seq::<SectionModel>::empty()) =~= Seq::<u8>::empty());
        assert(sections_bytes(ss.push(x)) =~= section_bytes(x));
        assert(sections_bytes(ss) + section_bytes(x) =~= section_bytes(x));
    } else {
        assert(ss.push(x)[0] == ss[0]);
        assert(ss.push(x).drop_first() =~= ss.drop_first().push(x));
        lemma_sections_snoc(ss.drop_first(), x);
        assert(sections_bytes(ss.push(x)) =~= sections_bytes(ss) + section_bytes(x));
    }
}

} // verus!
