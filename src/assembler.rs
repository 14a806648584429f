//! The assembler: constants, the two-pass label layout, the static data
//! block with its `copystatic` header, and the instruction stream with an
//! annotated listing.
use crate::error::AsmError;
use crate::instruction::{
    arity, encode, parse_opcode, parse_operand, Opcode, Operand, COPY_STATIC_HEADER,
};
use crate::sections::{find_section, lines_view, parse_sections, Section, SectionV, Sections};
use crate::text::{self, ends_with, split_on, starts_with, strip_comment, trim, u8_literal};
use vstd::prelude::*;
use vstd::utf8::{encode_scalar, encode_utf8};

verus! {

/// LEG uses fixed-length instructions.
pub const INST_LENGTH: u8 = 4;

/// The value bound to a name; a later entry hides an earlier one.
pub open spec fn lookup<T>(tbl: Seq<(Seq<char>, T)>, k: Seq<char>) -> Option<T>
    decreases tbl.len(),
{
    if tbl.len() == 0 {
        None
    } else if tbl.last().0 == k {
        Some(tbl.last().1)
    } else {
        lookup(tbl.drop_last(), k)
    }
}

pub open spec fn table_view<T>(v: Seq<(Vec<char>, T)>) -> Seq<(Seq<char>, T)> {
    v.map_values(|e: (Vec<char>, T)| (e.0@, e.1))
}

/// The constants of the first `n` lines of a `.consts` body: each
/// non-blank line (comments stripped) is `NAME VALUE`.
pub open spec fn consts_upto(body: Seq<Seq<char>>, n: nat) -> Result<Seq<(Seq<char>, u8)>, AsmError>
    decreases n,
{
    if n == 0 || n > body.len() {
        Ok(seq![])
    } else {
        match consts_upto(body, (n - 1) as nat) {
            Err(e) => Err(e),
            Ok(cs) => {
                let x = strip_comment(body[n - 1]);
                if x.len() == 0 {
                    Ok(cs)
                } else {
                    let parts = split_on(x, ' ');
                    if parts.len() < 2 {
                        Err(AsmError::SectionSyntax)
                    } else {
                        match u8_literal(parts[1]) {
                            Some(v) => Ok(cs.push((parts[0], v))),
                            None => Err(AsmError::BadU8Literal),
                        }
                    }
                }
            },
        }
    }
}

/// A code line as the assembler reads it: trimmed, comment stripped.
pub open spec fn code_line(l: Seq<char>) -> Seq<char> {
    strip_comment(trim(l))
}

/// The raw label table of the first `n` code lines, with offsets counted
/// from the first instruction, and the offset after them.
pub open spec fn labels_upto(body: Seq<Seq<char>>, n: nat) -> (Seq<(Seq<char>, int)>, int)
    decreases n,
{
    if n == 0 || n > body.len() {
        (seq![], 0)
    } else {
        let (ls, off) = labels_upto(body, (n - 1) as nat);
        let l = code_line(body[n - 1]);
        if l.len() == 0 {
            (ls, off)
        } else if ends_with(l, ':') {
            (ls.push((l.drop_last(), off)), off)
        } else {
            (ls, off + 4)
        }
    }
}

/// The text of a quoted string with each `''` read as one `'`.
pub open spec fn unescape(s: Seq<char>) -> Seq<char>
    decreases s.len(),
{
    if s.len() == 0 {
        seq![]
    } else if s.len() >= 2 && s[0] == '\'' && s[1] == '\'' {
        seq!['\''] + unescape(s.skip(2))
    } else {
        seq![s[0]] + unescape(s.drop_first())
    }
}

/// The comma-separated pieces of an array body, without a blank piece
/// after the last comma.
pub open spec fn array_pieces(content: Seq<char>) -> Seq<Seq<char>> {
    let pieces = split_on(content, ',');
    if pieces.len() > 1 && trim(pieces.last()).len() == 0 {
        pieces.drop_last()
    } else {
        pieces
    }
}

/// The elements of a comma-separated list of byte literals; blank for none,
/// and a blank piece after the last comma is allowed.
pub open spec fn array_items(content: Seq<char>) -> Option<Seq<u8>> {
    if trim(content).len() == 0 {
        Some(seq![])
    } else {
        let items = array_pieces(content);
        if forall|i: int| 0 <= i < items.len() ==> (#[trigger] u8_literal(trim(items[i]))) is Some {
            Some(Seq::new(items.len(), |i: int| u8_literal(trim(items[i]))->0))
        } else {
            None
        }
    }
}

/// The bytes of a `.data` value: a quoted string (its UTF-8 encoding), a
/// bracketed byte array, or one byte literal.
#[verifier::opaque]
pub open spec fn data_value(v: Seq<char>) -> Result<Seq<u8>, AsmError> {
    if starts_with(v, '\'') {
        if v.len() >= 2 && ends_with(v, '\'') {
            Ok(encode_utf8(unescape(v.subrange(1, v.len() - 1))))
        } else {
            Err(AsmError::BadQuotedString)
        }
    } else if starts_with(v, '[') {
        if ends_with(v, ']') {
            match array_items(v.subrange(1, v.len() - 1)) {
                Some(b) => Ok(b),
                None => Err(AsmError::BadArrayLiteral),
            }
        } else {
            Err(AsmError::BadArrayLiteral)
        }
    } else {
        match u8_literal(v) {
            Some(b) => Ok(seq![b]),
            None => Err(AsmError::BadDataValue),
        }
    }
}

/// The index of the last `c` in `s`, or -1.
pub open spec fn rfind_char(s: Seq<char>, c: char) -> int
    decreases s.len(),
{
    if s.len() == 0 {
        -1
    } else if s.last() == c {
        s.len() - 1
    } else {
        rfind_char(s.drop_last(), c)
    }
}

/// One `.data` entry: `NAME VALUE LENGTH_NAME` when the text after the last
/// space is a name and what precedes it a value, else `NAME VALUE`. A length
/// name `_` binds nothing.
#[verifier::opaque]
pub open spec fn data_entry(line: Seq<char>) -> Result<(Seq<char>, Seq<u8>, Option<Seq<char>>), AsmError> {
    let i = text::find_char(line, ' ');
    if i == 0 || i >= line.len() {
        Err(AsmError::SectionSyntax)
    } else {
        let name = line.take(i);
        let rest = line.skip(i + 1);
        let j = rfind_char(rest, ' ');
        if j >= 0 && j + 1 < rest.len() && data_value(rest.take(j)) is Ok {
            let len_name = rest.skip(j + 1);
            (Ok((
                name,
                data_value(rest.take(j))->Ok_0,
                if len_name == seq!['_'] {
                    None
                } else {
                    Some(len_name)
                },
            )))
        } else {
            match data_value(rest) {
                Ok(b) => Ok((name, b, None)),
                Err(e) => Err(e),
            }
        }
    }
}

/// The static data image and the names it binds.
pub struct DataImage {
    pub bytes: Seq<u8>,
    pub binds: Seq<(Seq<char>, u8)>,
}

/// The data of the first `n` lines of a `.data` body placed from `start`:
/// each entry binds its name to its address and, if given, its length name
/// to its length. Every address must be a byte, the total a byte, and the
/// block must end within RAM.
pub open spec fn data_upto(body: Seq<Seq<char>>, start: u8, n: nat) -> Result<DataImage, AsmError>
    decreases n,
{
    if n == 0 || n > body.len() {
        Ok(DataImage { bytes: seq![], binds: seq![] })
    } else {
        match data_upto(body, start, (n - 1) as nat) {
            Err(e) => Err(e),
            Ok(img) => {
                let line = strip_comment(body[n - 1]);
                if line.len() == 0 {
                    Ok(img)
                } else {
                    match data_entry(line) {
                        Err(e) => Err(e),
                        Ok((name, val, len_name)) => {
                            let addr = start + img.bytes.len();
                            let total = img.bytes.len() + val.len();
                            if addr > 255 || total > 255 || start + total > 256 {
                                Err(AsmError::DataOverflow)
                            } else {
                                Ok(
                                    DataImage {
                                        bytes: img.bytes + val,
                                        binds: img.binds.push((name, addr as u8)) + match len_name {
                                            Some(ln) => seq![(ln, val.len() as u8)],
                                            None => seq![],
                                        },
                                    },
                                )
                            }
                        },
                    }
                }
            },
        }
    }
}

/// The RAM start and the image of an optional `.data` section.
pub open spec fn data_of(sec: Option<SectionV>) -> Result<(u8, DataImage), AsmError> {
    match sec {
        None => Ok((0, DataImage { bytes: seq![], binds: seq![] })),
        Some(s) => if s.args.len() == 0 {
            Err(AsmError::SectionSyntax)
        } else {
            match u8_literal(s.args[0]) {
                None => Err(AsmError::BadU8Literal),
                Some(st) => match data_upto(s.body, st, s.body.len()) {
                    Err(e) => Err(e),
                    Ok(img) => Ok((st, img)),
                },
            }
        },
    }
}

/// An operand token: a constant's value, else a byte literal or register.
pub open spec fn resolve_operand(tok: Seq<char>, consts: Seq<(Seq<char>, u8)>) -> Option<Operand> {
    match lookup(consts, tok) {
        Some(v) => Some(Operand::Immediate(v)),
        None => parse_operand(tok),
    }
}

/// The instruction word of one code line. `call` and `jamv` take a label,
/// placed little-endian in bytes 2 and 3; other opcodes take operand tokens.
pub open spec fn statement(
    line: Seq<char>,
    consts: Seq<(Seq<char>, u8)>,
    labels: Seq<(Seq<char>, u16)>,
) -> Result<Seq<u8>, AsmError> {
    let toks = split_on(line, ' ');
    match parse_opcode(toks[0]) {
        None => Err(AsmError::UnknownMnemonic),
        Some(op) => if op is Call || op is JumpAddrMove {
            if toks.len() < 2 {
                Err(AsmError::MissingOperand)
            } else {
                match lookup(labels, toks[1]) {
                    None => Err(AsmError::UnknownLabel),
                    Some(a) => Ok(
                        encode(
                            op,
                            seq![
                                Operand::Immediate((a % 256) as u8),
                                Operand::Immediate((a / 256) as u8),
                            ],
                        ),
                    ),
                }
            }
        } else {
            let args = toks.drop_first();
            if exists|i: int| 0 <= i < args.len() && (#[trigger] resolve_operand(args[i], consts)) is None {
                Err(AsmError::UnknownOperand)
            } else if args.len() < arity(op) {
                Err(AsmError::MissingOperand)
            } else {
                Ok(encode(op, Seq::new(args.len(), |i: int| resolve_operand(args[i], consts)->0)))
            }
        },
    }
}

/// Whether a code line emits an instruction (it is neither blank nor a
/// label).
pub open spec fn is_instruction(l: Seq<char>) -> bool {
    l.len() > 0 && !ends_with(l, ':')
}

/// The code of the first `n` code lines.
pub open spec fn emit_upto(
    body: Seq<Seq<char>>,
    consts: Seq<(Seq<char>, u8)>,
    labels: Seq<(Seq<char>, u16)>,
    n: nat,
) -> Result<Seq<u8>, AsmError>
    decreases n,
{
    if n == 0 || n > body.len() {
        Ok(seq![])
    } else {
        match emit_upto(body, consts, labels, (n - 1) as nat) {
            Err(e) => Err(e),
            Ok(code) => {
                let l = code_line(body[n - 1]);
                if is_instruction(l) {
                    match statement(l, consts, labels) {
                        Err(e) => Err(e),
                        Ok(w) => Ok(code + w),
                    }
                } else {
                    Ok(code)
                }
            },
        }
    }
}

pub open spec fn hex_digit(v: int) -> char {
    if v < 10 {
        ('0' as int + v) as char
    } else {
        ('a' as int + v - 10) as char
    }
}

/// A byte as `0x` and two lower-case hexadecimal digits.
pub open spec fn hex_byte(b: u8) -> Seq<char> {
    seq!['0', 'x', hex_digit((b / 16) as int), hex_digit((b % 16) as int)]
}

/// Bytes in hexadecimal, separated by single spaces.
pub open spec fn hex_bytes(bs: Seq<u8>) -> Seq<char>
    decreases bs.len(),
{
    if bs.len() == 0 {
        seq![]
    } else if bs.len() == 1 {
        hex_byte(bs[0])
    } else {
        hex_bytes(bs.drop_last()) + seq![' '] + hex_byte(bs.last())
    }
}

/// One listing row: the bytes in hexadecimal and a comment, or the comment
/// alone where there are no bytes.
pub open spec fn listing_row(bytes: Seq<u8>, comment: Seq<char>) -> Seq<char> {
    if bytes.len() == 0 {
        seq!['#', ' '] + comment + seq!['\n']
    } else {
        hex_bytes(bytes) + seq![' ', '#', ' '] + comment + seq!['\n']
    }
}

/// The listing rows of the first `n` code lines.
pub open spec fn listing_upto(
    body: Seq<Seq<char>>,
    consts: Seq<(Seq<char>, u8)>,
    labels: Seq<(Seq<char>, u16)>,
    n: nat,
) -> Seq<char>
    decreases n,
{
    if n == 0 || n > body.len() {
        seq![]
    } else {
        let l = code_line(body[n - 1]);
        listing_upto(body, consts, labels, (n - 1) as nat) + if is_instruction(l) {
            listing_row(statement(l, consts, labels)->Ok_0, l)
        } else {
            listing_row(seq![], l)
        }
    }
}

pub open spec fn consts_name() -> Seq<char> {
    seq!['c', 'o', 'n', 's', 't', 's']
}

pub open spec fn code_name() -> Seq<char> {
    seq!['c', 'o', 'd', 'e']
}

pub open spec fn data_name() -> Seq<char> {
    seq!['d', 'a', 't', 'a']
}

pub open spec fn entry_name() -> Seq<char> {
    seq!['e', 'n', 't', 'r', 'y']
}

/// The listing rows of the header and of the static data.
pub open spec fn listing_head(header: Seq<u8>) -> Seq<char> {
    listing_row(header.take(4), seq!['c', 'o', 'p', 'y', 's', 't', 'a', 't', 'i', 'c']) + listing_row(
        header.skip(4),
        data_name(),
    )
}

/// What assembling a source text yields.
pub struct AsmOutput {
    /// The `copystatic` header followed by the static data.
    pub header: Seq<u8>,
    pub code: Seq<u8>,
    pub listing: Seq<char>,
    pub consts: Seq<(Seq<char>, u8)>,
    /// Each label with its address in the binary image.
    pub labels: Seq<(Seq<char>, u16)>,
}

/// The label table with each code offset moved past the header and the
/// static data.
pub open spec fn shift_labels(raw: Seq<(Seq<char>, int)>, shift: int) -> Seq<(Seq<char>, u16)> {
    raw.map_values(|e: (Seq<char>, int)| (e.0, (e.1 + shift) as u16))
}

/// Assembling a source text, or the first reason it fails.
pub open spec fn assemble_spec(src: Seq<char>) -> Result<AsmOutput, AsmError> {
    match parse_sections(src) {
        Err(e) => Err(e),
        Ok(secs) => match (match find_section(secs, consts_name()) {
            None => Ok(seq![]),
            Some(s) => consts_upto(s.body, s.body.len()),
        }) {
            Err(e) => Err(e),
            Ok(consts0) => match find_section(secs, code_name()) {
                None => Err(AsmError::MissingRequiredSection),
                Some(code) => {
                    let (raw, size) = labels_upto(code.body, code.body.len());
                    if size + 4 > 65535 {
                        Err(AsmError::ProgramTooLarge)
                    } else {
                        match data_of(find_section(secs, data_name())) {
                            Err(e) => Err(e),
                            Ok((start, img)) => {
                                let shift: int = 4 + img.bytes.len() as int;
                                let labels = shift_labels(raw, shift);
                                let consts = consts0 + img.binds;
                                if size + shift > 65535 {
                                    Err(AsmError::ProgramTooLarge)
                                } else {
                                    match find_section(secs, entry_name()) {
                                        None => Err(AsmError::MissingRequiredSection),
                                        Some(entry) => if entry.args.len() == 0 {
                                            Err(AsmError::SectionSyntax)
                                        } else {
                                            match lookup(labels, entry.args[0]) {
                                                None => Err(AsmError::UnknownLabel),
                                                Some(addr) => if addr > 255 {
                                                    Err(AsmError::EntrypointOutOfRange)
                                                } else {
                                                    let header = seq![
                                                        COPY_STATIC_HEADER,
                                                        img.bytes.len() as u8,
                                                        start,
                                                        addr as u8,
                                                    ] + img.bytes;
                                                    match emit_upto(
                                                        code.body,
                                                        consts,
                                                        labels,
                                                        code.body.len(),
                                                    ) {
                                                        Err(e) => Err(e),
                                                        Ok(bin) => Ok(
                                                            AsmOutput {
                                                                header,
                                                                code: bin,
                                                                listing: listing_head(header)
                                                                    + listing_upto(
                                                                    code.body,
                                                                    consts,
                                                                    labels,
                                                                    code.body.len(),
                                                                ),
                                                                consts,
                                                                labels,
                                                            },
                                                        ),
                                                    }
                                                },
                                            }
                                        },
                                    }
                                }
                            },
                        }
                    }
                },
            },
        },
    }
}


/// The value bound to `k` in a table whose later entries hide earlier ones.
fn lookup_table<T: Copy>(tbl: &Vec<(Vec<char>, T)>, k: &[char]) -> (r: Option<T>)
    ensures
        r == lookup(table_view(tbl@), k@),
{
    let ghost v = table_view(tbl@);
    let mut i: usize = tbl.len();
    assert(v.take(i as int) =~= v);
    while i > 0
        invariant
            i <= tbl@.len(),
            v == table_view(tbl@),
            lookup(v, k@) == lookup(v.take(i as int), k@),
        decreases i,
    {
        let ghost p = v.take(i as int);
        assert(p.drop_last() =~= v.take(i - 1));
        if text::eq_chars(tbl[i - 1].0.as_slice(), k) {
            return Some(tbl[i - 1].1);
        }
        i = i - 1;
    }
    None
}

/// Reads the `.consts` body: `NAME VALUE` per non-blank line.
fn read_consts(body: &Vec<Vec<char>>) -> (r: Result<Vec<(Vec<char>, u8)>, AsmError>)
    ensures
        match consts_upto(lines_view(body@), body@.len()) {
            Ok(cs) => r matches Ok(v) && table_view(v@) == cs,
            Err(e) => r == Err::<Vec<(Vec<char>, u8)>, AsmError>(e),
        },
{
    let ghost b = lines_view(body@);
    let mut consts: Vec<(Vec<char>, u8)> = Vec::new();
    let mut n: usize = 0;
    assert(table_view(consts@) =~= Seq::<(Seq<char>, u8)>::empty());
    while n < body.len()
        invariant
            n <= body@.len(),
            b == lines_view(body@),
            consts_upto(b, n as nat) == Ok::<Seq<(Seq<char>, u8)>, AsmError>(table_view(consts@)),
        decreases body@.len() - n,
    {
        let x = text::remove_comment(body[n].as_slice());
        assert(x@ == strip_comment(b[n as int]));
        if x.len() > 0 {
            let parts = crate::sections::split_chars(x.as_slice(), ' ');
            if parts.len() < 2 {
                proof {
                    lemma_consts_err(b, (n + 1) as nat, b.len());
                }
                return Err(AsmError::SectionSyntax);
            }
            match text::parse_u8_chars(parts[1].as_slice()) {
                None => {
                    proof {
                        lemma_consts_err(b, (n + 1) as nat, b.len());
                    }
                    return Err(AsmError::BadU8Literal);
                },
                Some(v) => {
                    let ghost before = table_view(consts@);
                    consts.push((parts[0].clone(), v));
                    assert(table_view(consts@) =~= before.push((lines_view(parts@)[0], v)));
                },
            }
        }
        n = n + 1;
    }
    assert(b.len() == body@.len());
    Ok(consts)
}

proof fn lemma_labels_monotone(body: Seq<Seq<char>>, i: nat, n: nat)
    requires
        i <= n <= body.len(),
    ensures
        0 <= labels_upto(body, i).1 <= labels_upto(body, n).1,
        forall|k: int|
            0 <= k < labels_upto(body, n).0.len() ==> 0 <= #[trigger] labels_upto(body, n).0[k].1
                <= labels_upto(body, n).1,
    decreases n,
{
    if n > 0 {
        if i < n {
            lemma_labels_monotone(body, i, (n - 1) as nat);
        } else {
            lemma_labels_monotone(body, (n - 1) as nat, (n - 1) as nat);
        }
        let (ls, off) = labels_upto(body, (n - 1) as nat);
        assert forall|k: int|
            0 <= k < labels_upto(body, n).0.len() implies 0 <= #[trigger] labels_upto(body, n).0[k].1
            <= labels_upto(body, n).1 by {
            if k < ls.len() {
                assert(labels_upto(body, n).0[k] == ls[k]);
            }
        }
    }
}

proof fn lemma_consts_err(body: Seq<Seq<char>>, i: nat, n: nat)
    requires
        i <= n <= body.len(),
        consts_upto(body, i) is Err,
    ensures
        consts_upto(body, n) == consts_upto(body, i),
    decreases n,
{
    if i < n {
        lemma_consts_err(body, i, (n - 1) as nat);
    }
}

pub open spec fn raw_u16(raw: Seq<(Seq<char>, int)>) -> Seq<(Seq<char>, u16)> {
    raw.map_values(|e: (Seq<char>, int)| (e.0, e.1 as u16))
}

/// The raw label table of a `.code` body: each `name:` line binds `name`
/// to the offset of the next instruction, counted from the first one. Also
/// returns the code size; `None` where code and header would leave the 16-bit
/// address space.
fn read_labels(code_section_lines: &Vec<Vec<char>>) -> (r: Option<(Vec<(Vec<char>, u16)>, u16)>)
    ensures
        ({
            let (raw, size) = labels_upto(lines_view(code_section_lines@), code_section_lines@.len());
            match r {
                None => size + 4 > 65535,
                Some((v, sz)) => size + 4 <= 65535 && sz == size && table_view(v@) == raw_u16(raw)
                    && forall|k: int| 0 <= k < raw.len() ==> 0 <= #[trigger] raw[k].1 <= size,
            }
        }),
{
    let ghost b = lines_view(code_section_lines@);
    let mut map: Vec<(Vec<char>, u16)> = Vec::new();
    let mut offset: u16 = 0;
    let mut n: usize = 0;
    assert(table_view(map@) =~= raw_u16(labels_upto(b, 0).0));
    while n < code_section_lines.len()
        invariant
            n <= b.len(),
            b == lines_view(code_section_lines@),
            offset as int == labels_upto(b, n as nat).1,
            offset + 4 <= 65535,
            table_view(map@) == raw_u16(labels_upto(b, n as nat).0),
        decreases b.len() - n,
    {
        let t = text::trim_chars(code_section_lines[n].as_slice());
        let line = text::remove_comment(t.as_slice());
        assert(line@ == code_line(b[n as int]));
        if line.len() > 0 {
            if line[line.len() - 1] == ':' {
                let name = text::copy_range(line.as_slice(), 0, line.len() - 1);
                assert(name@ =~= line@.drop_last());
                let ghost before = table_view(map@);
                let ghost prev = labels_upto(b, n as nat);
                assert(labels_upto(b, (n + 1) as nat).0 == prev.0.push((line@.drop_last(), prev.1)));
                assert(raw_u16(prev.0.push((line@.drop_last(), prev.1))) =~= raw_u16(prev.0).push(
                    (name@, offset),
                ));
                map.push((name, offset));
                assert(table_view(map@) =~= before.push((name@, offset)));
            } else {
                if offset + 4 > 65531 {
                    proof {
                        lemma_labels_monotone(b, (n + 1) as nat, b.len());
                    }
                    return None;
                }
                offset = offset + INST_LENGTH as u16;
            }
        }
        n = n + 1;
    }
    proof {
        lemma_labels_monotone(b, b.len(), b.len());
    }
    Some((map, offset))
}

/// The UTF-8 encoding of one character.
fn char_utf8(c: char) -> (r: Vec<u8>)
    ensures
        r@ == encode_scalar(c as u32),
{
    let v = c as u32;
    proof {
        vstd::utf8::char_is_scalar(c);
    }
    if v <= 0x7F {
        vec![(v & 0x7F) as u8]
    } else if v <= 0x7FF {
        vec![0xC0 | ((v >> 6) & 0x1F) as u8, 0x80 | (v & 0x3F) as u8]
    } else if v <= 0xFFFF {
        vec![
            0xE0 | ((v >> 12) & 0x0F) as u8,
            0x80 | ((v >> 6) & 0x3F) as u8,
            0x80 | (v & 0x3F) as u8,
        ]
    } else {
        vec![
            0xF0 | ((v >> 18) & 0x7) as u8,
            0x80 | ((v >> 12) & 0x3F) as u8,
            0x80 | ((v >> 6) & 0x3F) as u8,
            0x80 | (v & 0x3F) as u8,
        ]
    }
}

proof fn lemma_encode_utf8_push(a: Seq<char>, c: char)
    ensures
        encode_utf8(a.push(c)) == encode_utf8(a) + encode_scalar(c as u32),
    decreases a.len(),
{
    if a.len() == 0 {
        assert(a.push(c).drop_first() =~= Seq::<char>::empty());
        assert(encode_utf8(Seq::<char>::empty()) == Seq::<u8>::empty());
        assert(a.push(c)[0] == c);
        assert(encode_utf8(a) == Seq::<u8>::empty());
        assert(encode_utf8(a.push(c)) =~= encode_scalar(c as u32) + Seq::<u8>::empty());
    } else {
        lemma_encode_utf8_push(a.drop_first(), c);
        assert(a.push(c).drop_first() =~= a.drop_first().push(c));
        assert(encode_utf8(a.push(c)) =~= encode_utf8(a) + encode_scalar(c as u32));
    }
}

/// The UTF-8 encoding of a character sequence.
fn utf8_encode(s: &[char]) -> (r: Vec<u8>)
    ensures
        r@ == encode_utf8(s@),
{
    let mut r: Vec<u8> = Vec::new();
    let mut i: usize = 0;
    while i < s.len()
        invariant
            i <= s@.len(),
            r@ == encode_utf8(s@.take(i as int)),
        decreases s@.len() - i,
    {
        let mut e = char_utf8(s[i]);
        proof {
            lemma_encode_utf8_push(s@.take(i as int), s@[i as int]);
            assert(s@.take(i as int).push(s@[i as int]) =~= s@.take(i + 1));
        }
        r.append(&mut e);
        i = i + 1;
    }
    assert(s@.take(i as int) =~= s@);
    r
}

/// The text between the quotes of a quoted string, with `''` read as `'`.
pub fn parse_quoted_string(s: &[char]) -> (r: Option<Vec<char>>)
    ensures
        match r {
            Some(t) => starts_with(s@, '\'') && ends_with(s@, '\'') && s@.len() >= 2 && t@ == unescape(
                s@.subrange(1, s@.len() - 1),
            ),
            None => !(starts_with(s@, '\'') && ends_with(s@, '\'') && s@.len() >= 2),
        },
{
    if s.len() < 2 || s[0] != '\'' || s[s.len() - 1] != '\'' {
        return None;
    }
    let end = s.len() - 1;
    let ghost inner = s@.subrange(1, end as int);
    let mut r: Vec<char> = Vec::new();
    let mut i: usize = 1;
    assert(inner.skip(0) =~= inner);
    while i < end
        invariant
            1 <= i <= end,
            end == s@.len() - 1,
            inner == s@.subrange(1, end as int),
            unescape(inner) == r@ + unescape(inner.skip(i - 1)),
        decreases end - i,
    {
        let ghost rest = inner.skip(i - 1);
        if i + 1 < end && s[i] == '\'' && s[i + 1] == '\'' {
            r.push('\'');
            assert(rest.skip(2) =~= inner.skip(i + 1));
            i = i + 2;
        } else {
            r.push(s[i]);
            assert(rest.drop_first() =~= inner.skip(i as int));
            i = i + 1;
        }
        assert(unescape(inner) =~= r@ + unescape(inner.skip(i - 1)));
    }
    assert(inner.skip(i - 1) =~= Seq::<char>::empty());
    assert(r@ + Seq::<char>::empty() =~= r@);
    Some(r)
}

/// The bytes of a bracketed, comma-separated array of byte literals.
pub fn parse_data_array(s: &[char]) -> (r: Option<Vec<u8>>)
    ensures
        match r {
            Some(b) => starts_with(s@, '[') && ends_with(s@, ']') && array_items(
                s@.subrange(1, s@.len() - 1),
            ) == Some(b@),
            None => !(starts_with(s@, '[') && ends_with(s@, ']')) || array_items(
                s@.subrange(1, s@.len() - 1),
            ) is None,
        },
{
    if s.len() < 2 || s[0] != '[' || s[s.len() - 1] != ']' {
        return None;
    }
    let content = text::copy_range(s, 1, s.len() - 1);
    let trimmed = text::trim_chars(content.as_slice());
    if trimmed.len() == 0 {
        let v: Vec<u8> = Vec::new();
        assert(v@ =~= Seq::<u8>::empty());
        return Some(v);
    }
    let mut pieces = crate::sections::split_chars(content.as_slice(), ',');
    let ghost all = lines_view(pieces@);
    if pieces.len() > 1 {
        let last_trimmed = text::trim_chars(pieces[pieces.len() - 1].as_slice());
        if last_trimmed.len() == 0 {
            pieces.pop();
            assert(lines_view(pieces@) =~= all.drop_last());
        }
    }
    let ghost items = lines_view(pieces@);
    assert(trim(content@).len() != 0);
    assert(content@ == s@.subrange(1, s@.len() - 1));
    assert(items == array_pieces(content@));
    let mut out: Vec<u8> = Vec::new();
    let mut i: usize = 0;
    while i < pieces.len()
        invariant
            i <= pieces@.len(),
            items == lines_view(pieces@),
            trim(content@).len() != 0,
            content@ == s@.subrange(1, s@.len() - 1),
            items == array_pieces(content@),
            starts_with(s@, '[') && ends_with(s@, ']'),
            out@.len() == i,
            forall|k: int| 0 <= k < i ==> (#[trigger] u8_literal(trim(items[k]))) == Some(out@[k]),
        decreases pieces@.len() - i,
    {
        let t = text::trim_chars(pieces[i].as_slice());
        match text::parse_u8_chars(t.as_slice()) {
            None => {
                assert(items[i as int] == pieces@[i as int]@);
                assert(u8_literal(trim(items[i as int])) is None);
                assert(!(forall|k: int|
                    0 <= k < items.len() ==> (#[trigger] u8_literal(trim(items[k]))) is Some));
                assert(array_items(content@) is None);
                return None;
            },
            Some(b) => {
                out.push(b);
            },
        }
        i = i + 1;
    }
    assert(out@ =~= Seq::new(items.len(), |k: int| u8_literal(trim(items[k]))->0));
    Some(out)
}

/// The bytes of a `.data` value (see `data_value`).
pub fn parse_data_value(value: &[char]) -> (r: Result<Vec<u8>, AsmError>)
    ensures
        match data_value(value@) {
            Ok(b) => r matches Ok(v) && v@ == b,
            Err(e) => r == Err::<Vec<u8>, AsmError>(e),
        },
{
    reveal(data_value);
    if value.len() > 0 && value[0] == '\'' {
        match parse_quoted_string(value) {
            Some(t) => Ok(utf8_encode(t.as_slice())),
            None => Err(AsmError::BadQuotedString),
        }
    } else if value.len() > 0 && value[0] == '[' {
        match parse_data_array(value) {
            Some(b) => Ok(b),
            None => Err(AsmError::BadArrayLiteral),
        }
    } else {
        match text::parse_u8_chars(value) {
            Some(b) => {
                let v: Vec<u8> = vec![b];
                Ok(v)
            },
            None => Err(AsmError::BadDataValue),
        }
    }
}

/// The index of the last `c` in `s`, if any.
fn rfind_char_exec(s: &[char], c: char) -> (r: Option<usize>)
    ensures
        match r {
            Some(j) => j == rfind_char(s@, c) && j < s@.len(),
            None => rfind_char(s@, c) == -1,
        },
{
    let mut i: usize = s.len();
    assert(s@.take(i as int) =~= s@);
    while i > 0
        invariant
            i <= s@.len(),
            rfind_char(s@, c) == rfind_char(s@.take(i as int), c),
        decreases i,
    {
        assert(s@.take(i as int).drop_last() =~= s@.take(i - 1));
        if s[i - 1] == c {
            return Some(i - 1);
        }
        i = i - 1;
    }
    None
}

/// Reads one `.data` entry (see `data_entry`).
fn parse_data_line(line: &[char]) -> (r: Result<(Vec<char>, Vec<u8>, Option<Vec<char>>), AsmError>)
    ensures
        match data_entry(line@) {
            Ok((n, b, ln)) => r matches Ok((rn, rb, rln)) && rn@ == n && rb@ == b && match rln {
                Some(x) => ln == Some(x@),
                None => ln is None,
            },
            Err(e) => r matches Err(re) && re == e,
        },
{
    reveal(data_entry);
    let i = text::find_char_from(line, ' ', 0);
    assert(line@.skip(0) =~= line@);
    if i == 0 || i >= line.len() {
        return Err(AsmError::SectionSyntax);
    }
    let name = text::copy_range(line, 0, i);
    let rest = text::copy_range(line, i + 1, line.len());
    assert(name@ =~= line@.take(i as int));
    assert(rest@ =~= line@.skip(i + 1));
    match rfind_char_exec(rest.as_slice(), ' ') {
        Some(j) => {
            if j + 1 < rest.len() {
                let v = text::copy_range(rest.as_slice(), 0, j);
                assert(v@ =~= rest@.take(j as int));
                match parse_data_value(v.as_slice()) {
                    Ok(b) => {
                        let ln = text::copy_range(rest.as_slice(), j + 1, rest.len());
                        assert(ln@ =~= rest@.skip(j + 1));
                        if ln.len() == 1 && ln[0] == '_' {
                            assert(ln@ =~= seq!['_']);
                            return Ok((name, b, None));
                        } else {
                            assert(ln@ != seq!['_']);
                            return Ok((name, b, Some(ln)));
                        }
                    },
                    Err(_) => {},
                }
            }
        },
        None => {},
    }
    match parse_data_value(rest.as_slice()) {
        Ok(b) => Ok((name, b, None)),
        Err(e) => Err(e),
    }
}

proof fn lemma_data_err(body: Seq<Seq<char>>, start: u8, i: nat, n: nat)
    requires
        i <= n <= body.len(),
        data_upto(body, start, i) is Err,
    ensures
        data_upto(body, start, n) == data_upto(body, start, i),
    decreases n,
{
    if i < n {
        lemma_data_err(body, start, i, (n - 1) as nat);
    }
}

/// Reads a `.data` section: its RAM start, the static data image and the
/// names it binds, in order.
fn read_data(sec: &Section) -> (r: Result<(u8, Vec<u8>, Vec<(Vec<char>, u8)>), AsmError>)
    ensures
        match data_of(Some(sec@)) {
            Ok((st, img)) => r matches Ok((rst, rb, rbinds)) && rst == st && rb@ == img.bytes
                && table_view(rbinds@) == img.binds && rb@.len() <= 255,
            Err(e) => r matches Err(re) && re == e,
        },
{
    if sec.args.len() == 0 {
        return Err(AsmError::SectionSyntax);
    }
    let start = match text::parse_u8_chars(sec.args[0].as_slice()) {
        Some(x) => x,
        None => {
            return Err(AsmError::BadU8Literal);
        },
    };
    let ghost b = lines_view(sec.body_lines@);
    let mut bytes: Vec<u8> = Vec::new();
    let mut binds: Vec<(Vec<char>, u8)> = Vec::new();
    let mut n: usize = 0;
    assert(table_view(binds@) =~= Seq::<(Seq<char>, u8)>::empty());
    while n < sec.body_lines.len()
        invariant
            n <= b.len(),
            b == lines_view(sec.body_lines@),
            data_of(Some(sec@)) == (match data_upto(b, start, b.len()) {
                Err(e) => Err(e),
                Ok(img) => Ok((start, img)),
            }),
            data_upto(b, start, n as nat) matches Ok(img) && img.bytes == bytes@ && img.binds
                == table_view(binds@),
            start as int + bytes@.len() <= 256,
            bytes@.len() <= 255,
        decreases b.len() - n,
    {
        let line = text::remove_comment(sec.body_lines[n].as_slice());
        assert(line@ == strip_comment(b[n as int]));
        if line.len() > 0 {
            match parse_data_line(line.as_slice()) {
                Err(e) => {
                    assert(data_upto(b, start, (n + 1) as nat) == Err::<DataImage, AsmError>(e));
                    proof {
                        lemma_data_err(b, start, (n + 1) as nat, b.len());
                    }
                    return Err(e);
                },
                Ok((name, mut val, len_name)) => {
                    let addr = start as usize + bytes.len();
                    if addr > 255 || val.len() > 255 || bytes.len() + val.len() > 255 || start as usize
                        + bytes.len() + val.len() > 256 {
                        assert(data_upto(b, start, (n + 1) as nat) == Err::<DataImage, AsmError>(
                            AsmError::DataOverflow,
                        ));
                        proof {
                            lemma_data_err(b, start, (n + 1) as nat, b.len());
                        }
                        return Err(AsmError::DataOverflow);
                    }
                    let ghost before_binds = table_view(binds@);
                    let ghost before_bytes = bytes@;
                    let ghost v = val@;
                    let vlen = val.len() as u8;
                    binds.push((name, addr as u8));
                    match len_name {
                        Some(ln) => {
                            binds.push((ln, vlen));
                        },
                        None => {},
                    }
                    bytes.append(&mut val);
                    assert(bytes@ == before_bytes + v);
                    let ghost img = data_upto(b, start, (n + 1) as nat)->Ok_0;
                    assert(table_view(binds@) =~= img.binds);
                }
            }
        }
        n = n + 1;
    }
    Ok((start, bytes, binds))
}

fn hex_digit_exec(v: u8) -> (r: char)
    requires
        v < 16,
    ensures
        r == hex_digit(v as int),
{
    if v < 10 {
        (48 + v) as char
    } else {
        (87 + v) as char
    }
}

/// Bytes as `0xhh` separated by single spaces.
fn hex_array_literal(binary: &[u8]) -> (r: Vec<char>)
    ensures
        r@ == hex_bytes(binary@),
{
    let mut line: Vec<char> = Vec::new();
    let mut i: usize = 0;
    assert(binary@.take(0) =~= Seq::<u8>::empty());
    while i < binary.len()
        invariant
            i <= binary@.len(),
            line@ == hex_bytes(binary@.take(i as int)),
        decreases binary@.len() - i,
    {
        let b = binary[i];
        assert(binary@.take(i + 1).drop_last() =~= binary@.take(i as int));
        if i > 0 {
            line.push(' ');
        }
        line.push('0');
        line.push('x');
        line.push(hex_digit_exec(b / 16));
        line.push(hex_digit_exec(b % 16));
        assert(line@ =~= hex_bytes(binary@.take(i + 1)));
        i = i + 1;
    }
    assert(binary@.take(i as int) =~= binary@);
    line
}

fn push_all(dst: &mut Vec<char>, src: &[char])
    ensures
        final(dst)@ == old(dst)@ + src@,
{
    let mut i: usize = 0;
    while i < src.len()
        invariant
            i <= src@.len(),
            dst@ == old(dst)@ + src@.take(i as int),
        decreases src@.len() - i,
    {
        dst.push(src[i]);
        i = i + 1;
        assert(dst@ =~= old(dst)@ + src@.take(i as int));
    }
    assert(src@.take(i as int) =~= src@);
}

/// Appends one listing row (see `listing_row`).
fn push_listing_row(out: &mut Vec<char>, bytes: &[u8], comment: &[char])
    ensures
        final(out)@ == old(out)@ + listing_row(bytes@, comment@),
{
    if bytes.len() == 0 {
        push_all(out, &['#', ' ']);
    } else {
        let hex = hex_array_literal(bytes);
        push_all(out, hex.as_slice());
        push_all(out, &[' ', '#', ' ']);
    }
    push_all(out, comment);
    out.push('\n');
    assert(final(out)@ =~= old(out)@ + listing_row(bytes@, comment@));
}

/// Relies on `String::from_iter`: the string of the given characters.
#[verifier::external_body]
fn string_of(chars: &Vec<char>) -> (r: String)
    ensures
        r@ == chars@,
{
    chars.iter().collect()
}

proof fn lemma_emit_err(
    body: Seq<Seq<char>>,
    consts: Seq<(Seq<char>, u8)>,
    labels: Seq<(Seq<char>, u16)>,
    i: nat,
    n: nat,
)
    requires
        i <= n <= body.len(),
        emit_upto(body, consts, labels, i) is Err,
    ensures
        emit_upto(body, consts, labels, n) == emit_upto(body, consts, labels, i),
    decreases n,
{
    if i < n {
        lemma_emit_err(body, consts, labels, i, (n - 1) as nat);
    }
}

fn copy_lines(v: &Vec<Vec<char>>) -> (r: Vec<Vec<char>>)
    ensures
        lines_view(r@) == lines_view(v@),
{
    let mut r: Vec<Vec<char>> = Vec::new();
    let mut i: usize = 0;
    while i < v.len()
        invariant
            i <= v@.len(),
            lines_view(r@) == lines_view(v@).take(i as int),
        decreases v@.len() - i,
    {
        let l = text::copy_range(v[i].as_slice(), 0, v[i].len());
        assert(l@ =~= v@[i as int]@);
        let ghost before = lines_view(r@);
        r.push(l);
        assert(lines_view(r@) =~= before.push(l@));
        assert(lines_view(r@) =~= lines_view(v@).take(i + 1));
        i = i + 1;
    }
    assert(lines_view(v@).take(i as int) =~= lines_view(v@));
    r
}

/// The output of the assembler: the image in two parts and an annotated
/// listing.
#[derive(Debug, Clone)]
pub struct AssemblyTarget {
    /// One row per header, data block and code line: bytes in hexadecimal,
    /// then `#` and the line.
    pub commented_binary: String,
    pub binary: BinaryParts,
}

/// A binary image: the header with the static data, then the code.
#[derive(Debug, Clone)]
pub struct BinaryParts {
    pub header: Vec<u8>,
    pub code: Vec<u8>,
}

impl BinaryParts {
    /// The whole image: the header part followed by the code.
    pub fn merge(&self) -> (r: Vec<u8>)
        ensures
            r@ == self.header@ + self.code@,
    {
        let mut out: Vec<u8> = Vec::new();
        let mut i: usize = 0;
        while i < self.header.len()
            invariant
                i <= self.header@.len(),
                out@ == self.header@.take(i as int),
            decreases self.header@.len() - i,
        {
            out.push(self.header[i]);
            i = i + 1;
            assert(out@ =~= self.header@.take(i as int));
        }
        let mut j: usize = 0;
        assert(self.header@.take(i as int) =~= self.header@);
        while j < self.code.len()
            invariant
                j <= self.code@.len(),
                out@ == self.header@ + self.code@.take(j as int),
            decreases self.code@.len() - j,
        {
            out.push(self.code[j]);
            j = j + 1;
            assert(out@ =~= self.header@ + self.code@.take(j as int));
        }
        assert(self.code@.take(j as int) =~= self.code@);
        out
    }
}

/// An assembled program.
#[derive(Debug)]
pub struct Assembler {
    consts: Vec<(Vec<char>, u8)>,
    labels: Vec<(Vec<char>, u16)>,
    /// The `copystatic` header followed by the static data.
    binary_header: Vec<u8>,
    code_binary: Vec<u8>,
    commented: Vec<char>,
}

impl View for Assembler {
    type V = AsmOutput;

    closed spec fn view(&self) -> AsmOutput {
        AsmOutput {
            header: self.binary_header@,
            code: self.code_binary@,
            listing: self.commented@,
            consts: table_view(self.consts@),
            labels: table_view(self.labels@),
        }
    }
}

impl Assembler {
    /// Encodes one code line (see `statement`).
    fn process_asm_statement(&self, line: &[char]) -> (r: Result<[u8; 4], AsmError>)
        ensures
            match statement(line@, self@.consts, self@.labels) {
                Ok(w) => r matches Ok(x) && x@ == w,
                Err(e) => r == Err::<[u8; 4], AsmError>(e),
            },
    {
        let toks = crate::sections::split_chars(line, ' ');
        let ghost t = lines_view(toks@);
        let op = match Opcode::from_mnemonic(toks[0].as_slice()) {
            None => {
                return Err(AsmError::UnknownMnemonic);
            },
            Some(op) => op,
        };
        if op == Opcode::Call || op == Opcode::JumpAddrMove {
            if toks.len() < 2 {
                return Err(AsmError::MissingOperand);
            }
            match lookup_table(&self.labels, toks[1].as_slice()) {
                None => {
                    return Err(AsmError::UnknownLabel);
                },
                Some(a) => {
                    let ops: [Operand; 2] = [
                        Operand::Immediate((a % 256) as u8),
                        Operand::Immediate((a / 256) as u8),
                    ];
                    let ghost want = seq![
                        Operand::Immediate((a % 256) as u8),
                        Operand::Immediate((a / 256) as u8),
                    ];
                    assert(ops@ =~= want);
                    return op.binary(ops.as_slice());
                },
            }
        }
        let ghost args = t.drop_first();
        let mut ops: Vec<Operand> = Vec::new();
        let mut i: usize = 1;
        while i < toks.len()
            invariant
                1 <= i <= toks@.len(),
                t == lines_view(toks@),
                t == split_on(line@, ' '),
                parse_opcode(t[0]) == Some(op),
                !(op is Call || op is JumpAddrMove),
                args == t.drop_first(),
                ops@.len() == i - 1,
                forall|k: int|
                    0 <= k < i - 1 ==> (#[trigger] resolve_operand(args[k], self@.consts)) == Some(
                        ops@[k],
                    ),
            decreases toks@.len() - i,
        {
            let tok = toks[i].as_slice();
            assert(tok@ == args[i - 1]);
            let resolved = match lookup_table(&self.consts, tok) {
                Some(v) => Operand::Immediate(v),
                None => match Operand::parse(tok) {
                    Some(o) => o,
                    None => {
                        assert(resolve_operand(args[i - 1], self@.consts) is None);
                        return Err(AsmError::UnknownOperand);
                    },
                },
            };
            ops.push(resolved);
            i = i + 1;
        }
        assert(ops@ =~= Seq::new(args.len(), |k: int| resolve_operand(args[k], self@.consts)->0));
        op.binary(ops.as_slice())
    }
}

impl Assembler {
    /// Emits the code of a `.code` body and its listing rows after the
    /// header rows already in place.
    fn emit(&mut self, body: &Vec<Vec<char>>) -> (r: Result<(), AsmError>)
        requires
            old(self)@.code == Seq::<u8>::empty(),
        ensures
            final(self)@.header == old(self)@.header,
            final(self)@.consts == old(self)@.consts,
            final(self)@.labels == old(self)@.labels,
            match emit_upto(lines_view(body@), old(self)@.consts, old(self)@.labels, body@.len()) {
                Ok(bin) => r is Ok && final(self)@.code == bin && final(self)@.listing
                    == old(self)@.listing + listing_upto(
                    lines_view(body@),
                    old(self)@.consts,
                    old(self)@.labels,
                    body@.len(),
                ),
                Err(e) => r == Err::<(), AsmError>(e),
            },
    {
        let ghost b = lines_view(body@);
        let ghost cs = self@.consts;
        let ghost ls = self@.labels;
        let ghost head = self@.listing;
        let mut n: usize = 0;
        while n < body.len()
            invariant
                n <= b.len(),
                b == lines_view(body@),
                self@.header == old(self)@.header,
                cs == self@.consts,
                ls == self@.labels,
                cs == old(self)@.consts,
                ls == old(self)@.labels,
                head == old(self)@.listing,
                emit_upto(b, cs, ls, n as nat) == Ok::<Seq<u8>, AsmError>(self@.code),
                self@.listing == head + listing_upto(b, cs, ls, n as nat),
            decreases b.len() - n,
        {
            let t = text::trim_chars(body[n].as_slice());
            let line = text::remove_comment(t.as_slice());
            assert(line@ == code_line(b[n as int]));
            if line.len() == 0 || line[line.len() - 1] == ':' {
                let ghost before = self.commented@;
                push_listing_row(&mut self.commented, &[], line.as_slice());
                assert(self.commented@ =~= head + listing_upto(b, cs, ls, (n + 1) as nat));
            } else {
                let inst = match self.process_asm_statement(line.as_slice()) {
                    Ok(w) => w,
                    Err(e) => {
                        proof {
                            lemma_emit_err(b, cs, ls, (n + 1) as nat, b.len());
                        }
                        return Err(e);
                    },
                };
                let ghost before_code = self.code_binary@;
                self.code_binary.push(inst[0]);
                self.code_binary.push(inst[1]);
                self.code_binary.push(inst[2]);
                self.code_binary.push(inst[3]);
                assert(self.code_binary@ =~= before_code + inst@);
                push_listing_row(&mut self.commented, inst.as_slice(), line.as_slice());
                assert(self.commented@ =~= head + listing_upto(b, cs, ls, (n + 1) as nat));
            }
            n = n + 1;
        }
        Ok(())
    }

    /// Assembles a source text: sections, constants, the label layout, the
    /// static data with its `copystatic` header, then every instruction.
    pub fn new(code: &str) -> (r: Result<Assembler, AsmError>)
        ensures
            match assemble_spec(code@) {
                Ok(out) => r matches Ok(a) && a@ == out,
                Err(e) => r matches Err(x) && x == e,
            },
    {
        let src = text::chars_of(code);
        let sections = match Sections::new(src.as_slice()) {
            Ok(s) => s,
            Err(e) => {
                return Err(e);
            },
        };
        let ghost secs = crate::sections::sections_view(sections.sections@);
        let consts_label: [char; 6] = ['c', 'o', 'n', 's', 't', 's'];
        assert(consts_label@ =~= consts_name());
        let mut consts = match sections.find(consts_label.as_slice()) {
            None => Vec::new(),
            Some(s) => match read_consts(&s.body_lines) {
                Ok(c) => c,
                Err(e) => {
                    return Err(e);
                },
            },
        };
        proof {
            if find_section(secs, consts_name()) is None {
                assert(table_view(consts@) =~= Seq::<(Seq<char>, u8)>::empty());
            }
        }
        let code_label: [char; 4] = ['c', 'o', 'd', 'e'];
        assert(code_label@ =~= code_name());
        let code_section = match sections.find(code_label.as_slice()) {
            None => {
                return Err(AsmError::MissingRequiredSection);
            },
            Some(s) => s,
        };
        let body = copy_lines(&code_section.body_lines);
        let (raw, size) = match read_labels(&body) {
            None => {
                return Err(AsmError::ProgramTooLarge);
            },
            Some(x) => x,
        };
        let data_label: [char; 4] = ['d', 'a', 't', 'a'];
        assert(data_label@ =~= data_name());
        let (start, data, mut binds) = match sections.find(data_label.as_slice()) {
            None => {
                let d: Vec<u8> = Vec::new();
                let bs: Vec<(Vec<char>, u8)> = Vec::new();
                assert(table_view(bs@) =~= Seq::<(Seq<char>, u8)>::empty());
                (0u8, d, bs)
            },
            Some(s) => match read_data(s) {
                Ok(x) => x,
                Err(e) => {
                    return Err(e);
                },
            },
        };
        let shift: usize = 4 + data.len();
        if size as usize + shift > 65535 {
            return Err(AsmError::ProgramTooLarge);
        }
        let ghost raw_spec = labels_upto(lines_view(body@), body@.len()).0;
        let mut labels: Vec<(Vec<char>, u16)> = Vec::new();
        let mut k: usize = 0;
        while k < raw.len()
            invariant
                k <= raw@.len(),
                table_view(raw@) == raw_u16(raw_spec),
                forall|q: int| 0 <= q < raw_spec.len() ==> 0 <= #[trigger] raw_spec[q].1 <= size,
                size + shift <= 65535,
                table_view(labels@) == shift_labels(raw_spec, shift as int).take(k as int),
            decreases raw@.len() - k,
        {
            let ghost before = table_view(labels@);
            assert(table_view(raw@).len() == raw_spec.len());
            assert(table_view(raw@)[k as int] == (raw@[k as int].0@, raw@[k as int].1));
            assert(raw_u16(raw_spec)[k as int] == (raw_spec[k as int].0, raw_spec[k as int].1 as u16));
            assert(0 <= raw_spec[k as int].1 <= size);
            assert(raw@[k as int].1 == raw_spec[k as int].1);
            let name = text::copy_range(raw[k].0.as_slice(), 0, raw[k].0.len());
            let addr = raw[k].1 + shift as u16;
            assert(name@ =~= raw@[k as int].0@);
            labels.push((name, addr));
            assert(table_view(labels@) =~= before.push((name@, addr)));
            assert(shift_labels(raw_spec, shift as int)[k as int] == (name@, addr));
            assert(table_view(labels@) =~= shift_labels(raw_spec, shift as int).take(k + 1));
            k = k + 1;
        }
        assert(table_view(raw@).len() == raw_spec.len());
        assert(shift_labels(raw_spec, shift as int).take(k as int) =~= shift_labels(
            raw_spec,
            shift as int,
        ));
        let ghost consts0 = table_view(consts@);
        let ghost binds0 = table_view(binds@);
        consts.append(&mut binds);
        assert(table_view(consts@) =~= consts0 + binds0);
        let entry_label: [char; 5] = ['e', 'n', 't', 'r', 'y'];
        assert(entry_label@ =~= entry_name());
        let entry_section = match sections.find(entry_label.as_slice()) {
            None => {
                return Err(AsmError::MissingRequiredSection);
            },
            Some(s) => s,
        };
        if entry_section.args.len() == 0 {
            return Err(AsmError::SectionSyntax);
        }
        let entry_addr = match lookup_table(&labels, entry_section.args[0].as_slice()) {
            None => {
                return Err(AsmError::UnknownLabel);
            },
            Some(a) => a,
        };
        if entry_addr > 255 {
            return Err(AsmError::EntrypointOutOfRange);
        }
        let mut binary_header: Vec<u8> = vec![
            COPY_STATIC_HEADER,
            data.len() as u8,
            start,
            entry_addr as u8,
        ];
        let ghost h4 = binary_header@;
        let mut data_copy = data;
        binary_header.append(&mut data_copy);
        let mut commented: Vec<char> = Vec::new();
        let (prefix, static_data) = binary_header.as_slice().split_at(4);
        push_listing_row(
            &mut commented,
            prefix,
            &['c', 'o', 'p', 'y', 's', 't', 'a', 't', 'i', 'c'],
        );
        push_listing_row(&mut commented, static_data, data_label.as_slice());
        assert(commented@ =~= listing_head(binary_header@));
        let mut assembler = Assembler {
            consts,
            labels,
            binary_header,
            code_binary: Vec::new(),
            commented,
        };
        match assembler.emit(&body) {
            Ok(()) => Ok(assembler),
            Err(e) => Err(e),
        }
    }

    /// The image and the listing of the assembled program.
    pub fn assemble(&self) -> (r: AssemblyTarget)
        ensures
            r.binary.header@ == self@.header,
            r.binary.code@ == self@.code,
            r.commented_binary@ == self@.listing,
    {
        let binary = BinaryParts { header: self.binary_header.clone(), code: self.code_binary.clone() };
        AssemblyTarget { commented_binary: string_of(&self.commented), binary }
    }
}

proof fn lemma_data_bounds(body: Seq<Seq<char>>, start: u8, n: nat)
    requires
        n <= body.len(),
        data_upto(body, start, n) is Ok,
    ensures
        data_upto(body, start, n)->Ok_0.bytes.len() <= 255,
        start + data_upto(body, start, n)->Ok_0.bytes.len() <= 256,
    decreases n,
{
    if n > 0 {
        lemma_data_bounds(body, start, (n - 1) as nat);
    }
}

/// Every assembled image starts with the `copystatic` code, the length of
/// the static data, the RAM address it is copied to and the low byte of the
/// entry point's address, followed by the static data: the bytes of every
/// `.data` entry, in order.
pub proof fn lemma_header_prefix(src: Seq<char>)
    requires
        assemble_spec(src) is Ok,
    ensures
        ({
            let out = assemble_spec(src)->Ok_0;
            let secs = parse_sections(src)->Ok_0;
            let (start, img) = data_of(find_section(secs, data_name()))->Ok_0;
            let entry = find_section(secs, entry_name())->0;
            &&& out.header.len() == 4 + img.bytes.len()
            &&& out.header[0] == COPY_STATIC_HEADER
            &&& out.header[1] as int == img.bytes.len()
            &&& out.header[2] == start
            &&& lookup(out.labels, entry.args[0]) == Some(out.header[3] as u16)
            &&& out.header.skip(4) == img.bytes
        }),
{
    let secs = parse_sections(src)->Ok_0;
    let sec = find_section(secs, data_name());
    match sec {
        Some(s) => {
            let st = u8_literal(s.args[0])->0;
            lemma_data_bounds(s.body, st, s.body.len());
        },
        None => {},
    }
    let out = assemble_spec(src)->Ok_0;
    let (start, img) = data_of(sec)->Ok_0;
    assert(out.header.skip(4) =~= img.bytes);
}

proof fn lemma_labels_prefix(body: Seq<Seq<char>>, p: nat, n: nat)
    requires
        p <= n <= body.len(),
    ensures
        labels_upto(body, p).0.len() <= labels_upto(body, n).0.len(),
        labels_upto(body, n).0.take(labels_upto(body, p).0.len() as int) == labels_upto(body, p).0,
    decreases n,
{
    if p < n {
        lemma_labels_prefix(body, p, (n - 1) as nat);
        let a = labels_upto(body, p).0;
        let b = labels_upto(body, (n - 1) as nat).0;
        let c = labels_upto(body, n).0;
        assert(c.take(a.len() as int) =~= b.take(a.len() as int));
    } else {
        assert(labels_upto(body, n).0.take(labels_upto(body, n).0.len() as int) =~= labels_upto(
            body,
            n,
        ).0);
    }
}

proof fn lemma_offset_steady(body: Seq<Seq<char>>, k: nat, m: nat)
    requires
        k < m <= body.len(),
        ends_with(code_line(body[k as int]), ':'),
        forall|j: int| k < j < m ==> !is_instruction(#[trigger] code_line(body[j])),
    ensures
        labels_upto(body, m).1 == labels_upto(body, k).1,
    decreases m,
{
    if m > k + 1 {
        lemma_offset_steady(body, k, (m - 1) as nat);
        assert(!is_instruction(code_line(body[m - 1])));
    }
}

proof fn lemma_emit_prefix(
    body: Seq<Seq<char>>,
    cs: Seq<(Seq<char>, u8)>,
    ls: Seq<(Seq<char>, u16)>,
    p: nat,
    n: nat,
)
    requires
        p <= n <= body.len(),
        emit_upto(body, cs, ls, n) is Ok,
    ensures
        emit_upto(body, cs, ls, p) is Ok,
        emit_upto(body, cs, ls, p)->Ok_0.len() == labels_upto(body, p).1,
        emit_upto(body, cs, ls, p)->Ok_0.len() <= emit_upto(body, cs, ls, n)->Ok_0.len(),
        emit_upto(body, cs, ls, n)->Ok_0.take(emit_upto(body, cs, ls, p)->Ok_0.len() as int)
            == emit_upto(body, cs, ls, p)->Ok_0,
    decreases n,
{
    if n > 0 {
        let l = code_line(body[n - 1]);
        if is_instruction(l) {
            assert(statement(l, cs, ls)->Ok_0.len() == 4);
        }
    }
    if p < n {
        lemma_emit_prefix(body, cs, ls, p, (n - 1) as nat);
        let a = emit_upto(body, cs, ls, p)->Ok_0;
        let b = emit_upto(body, cs, ls, (n - 1) as nat)->Ok_0;
        let c = emit_upto(body, cs, ls, n)->Ok_0;
        assert(c.take(a.len() as int) =~= b.take(a.len() as int));
    } else if n > 0 {
        lemma_emit_prefix(body, cs, ls, (n - 1) as nat, (n - 1) as nat);
        let c = emit_upto(body, cs, ls, n)->Ok_0;
        assert(c.take(c.len() as int) =~= c);
    } else {
        let c = emit_upto(body, cs, ls, n)->Ok_0;
        assert(c.take(c.len() as int) =~= c);
    }
}

/// For every label line, the four bytes of the assembled image at the
/// address that the label table gives the label are the instruction word of
/// the first instruction that follows the label in the source; in
/// particular the byte at that address is its opcode byte.
pub proof fn lemma_label_layout(src: Seq<char>, k: int, m: int)
    requires
        assemble_spec(src) is Ok,
        ({
            let code = find_section(parse_sections(src)->Ok_0, code_name())->0.body;
            &&& 0 <= k < m < code.len()
            &&& ends_with(code_line(code[k]), ':')
            &&& is_instruction(code_line(code[m]))
            &&& forall|j: int| k < j < m ==> !is_instruction(#[trigger] code_line(code[j]))
        }),
    ensures
        ({
            let out = assemble_spec(src)->Ok_0;
            let code = find_section(parse_sections(src)->Ok_0, code_name())->0.body;
            let i = labels_upto(code, k as nat).0.len() as int;
            &&& 0 <= i < out.labels.len()
            &&& out.labels[i].0 == code_line(code[k]).drop_last()
            &&& out.labels[i].1 + 4 <= (out.header + out.code).len()
            &&& (out.header + out.code).subrange(
                out.labels[i].1 as int,
                out.labels[i].1 + 4,
            ) == statement(code_line(code[m]), out.consts, out.labels)->Ok_0
            &&& (out.header + out.code)[out.labels[i].1 as int] == statement(
                code_line(code[m]),
                out.consts,
                out.labels,
            )->Ok_0[0]
        }),
{
    let out = assemble_spec(src)->Ok_0;
    let secs = parse_sections(src)->Ok_0;
    let code = find_section(secs, code_name())->0.body;
    let n = code.len();
    let (raw, size) = labels_upto(code, n);
    let (start, img) = data_of(find_section(secs, data_name()))->Ok_0;
    let shift: int = 4 + img.bytes.len() as int;
    let i = labels_upto(code, k as nat).0.len() as int;
    let off_k = labels_upto(code, k as nat).1;
    assert(labels_upto(code, (k + 1) as nat).0 == labels_upto(code, k as nat).0.push(
        (code_line(code[k]).drop_last(), off_k),
    ));
    lemma_labels_prefix(code, (k + 1) as nat, n);
    assert(raw.take(i + 1)[i] == raw[i]);
    assert(raw[i] == (code_line(code[k]).drop_last(), off_k));
    lemma_labels_monotone(code, n, n);
    assert(out.labels == shift_labels(raw, shift));
    assert(out.labels[i] == (code_line(code[k]).drop_last(), (off_k + shift) as u16));
    lemma_offset_steady(code, k as nat, m as nat);
    let cs = out.consts;
    let ls = out.labels;
    lemma_emit_prefix(code, cs, ls, (m + 1) as nat, n);
    lemma_emit_prefix(code, cs, ls, m as nat, m as nat);
    lemma_emit_prefix(code, cs, ls, m as nat, (m + 1) as nat);
    let before = emit_upto(code, cs, ls, m as nat)->Ok_0;
    let w = statement(code_line(code[m]), cs, ls)->Ok_0;
    assert(emit_upto(code, cs, ls, (m + 1) as nat)->Ok_0 == before + w);
    let upto = emit_upto(code, cs, ls, (m + 1) as nat)->Ok_0;
    assert(w.len() == 4);
    assert(before.len() == off_k);
    assert(out.code.take(upto.len() as int) == upto);
    assert(out.code.subrange(off_k, off_k + 4) =~= w) by {
        assert forall|q: int| 0 <= q < 4 implies out.code[off_k + q] == w[q] by {
            assert(out.code.take(upto.len() as int)[off_k + q] == upto[off_k + q]);
        }
    }
    assert(out.header.len() == shift);
    let image = out.header + out.code;
    assert(image.subrange(off_k + shift, off_k + shift + 4) =~= out.code.subrange(off_k, off_k + 4));
    assert(image[off_k + shift] == w[0]);
}

} // verus!
