//! The formatting engine and the bounded reader model.
//!
//! A dump is a sequence of lines.  Each line renders up to `width` bytes:
//! an optional eight-digit hex offset label, the bytes in space-separated
//! groups of `chunk_size`, and an optional `|...|` ASCII translation column
//! padded so that the columns align across lines.

use crate::args::Args;
use crate::args::ArgsView;
use crate::text::byte_hex_chars;
use crate::text::hex_label;
use crate::text::push_char;
use crate::text::push_hex_byte;
use crate::text::push_hex_label;
use vstd::prelude::*;
use vstd::string::StringExecFns;

verus! {

/// The smaller of two naturals.
pub open spec fn min_nat(a: nat, b: nat) -> nat {
    if a <= b {
        a
    } else {
        b
    }
}

/// One group of consecutive bytes as an unbroken run of hex digits.
pub open spec fn group_hex(g: Seq<u8>) -> Seq<char>
    decreases g.len(),
{
    if g.len() == 0 {
        Seq::empty()
    } else {
        byte_hex_chars(g[0]) + group_hex(g.skip(1))
    }
}

/// A line's bytes in groups of `chunk` (the final group may be shorter),
/// each group followed by one space.
pub open spec fn line_body(line: Seq<u8>, chunk: nat) -> Seq<char>
    recommends
        chunk >= 1,
    decreases line.len(),
{
    if line.len() == 0 || chunk == 0 {
        Seq::empty()
    } else {
        let g = min_nat(chunk, line.len());
        group_hex(line.take(g as int)) + seq![' '] + line_body(line.skip(g as int), chunk)
    }
}

/// The ASCII rendering of one byte: printable bytes keep their character,
/// newline, tab and carriage return collapse to a space, the rest become `.`.
pub open spec fn translate_byte(b: u8) -> char {
    if b == 10 || b == 9 || b == 13 {
        ' '
    } else if 32 <= b && b <= 126 {
        b as char
    } else {
        '.'
    }
}

/// The translation column's characters for a line's bytes.
pub open spec fn translation_chars(line: Seq<u8>) -> Seq<char> {
    Seq::new(line.len(), |i: int| translate_byte(line[i]))
}

/// `n` spaces.
pub open spec fn spaces(n: nat) -> Seq<char> {
    Seq::new(n, |i: int| ' ')
}

/// The number of characters the hex groups of `n` bytes occupy under the
/// original column formula: two digits per byte plus `n / chunk` separators.
pub open spec fn hex_width(n: nat, chunk: nat) -> nat
    recommends
        chunk >= 1,
{
    2 * n + n / chunk
}

/// One formatted line (without its terminating newline): the offset label if
/// `show_offset`, the hex groups, and the padded translation column if
/// `translate`.
pub open spec fn line_text(
    line: Seq<u8>,
    off: nat,
    width: nat,
    chunk: nat,
    show_offset: bool,
    translate: bool,
) -> Seq<char>
    recommends
        chunk >= 1,
        line.len() <= width,
{
    (if show_offset {
        hex_label(off, 8) + seq![' ', ' ']
    } else {
        Seq::empty()
    }) + line_body(line, chunk) + (if translate {
        spaces((hex_width(width, chunk) - hex_width(line.len(), chunk)) as nat) + seq!['\t', '\t', '|']
            + translation_chars(line) + seq!['|']
    } else {
        Seq::empty()
    })
}

/// The formatted lines of a whole buffer: one line per `width` bytes (the
/// final line may be shorter), the offset label counting from `off`.
pub open spec fn dump_lines(
    bytes: Seq<u8>,
    off: nat,
    width: nat,
    chunk: nat,
    show_offset: bool,
    translate: bool,
) -> Seq<Seq<char>>
    recommends
        width >= 1,
        chunk >= 1,
    decreases bytes.len(),
{
    if bytes.len() == 0 || width == 0 {
        Seq::empty()
    } else {
        let l = min_nat(width, bytes.len());
        seq![line_text(bytes.take(l as int), off, width, chunk, show_offset, translate)]
            + dump_lines(bytes.skip(l as int), off + l, width, chunk, show_offset, translate)
    }
}

/// The lines joined into one text, each followed by a newline.
pub open spec fn join_lines(lines: Seq<Seq<char>>) -> Seq<char>
    decreases lines.len(),
{
    if lines.len() == 0 {
        Seq::empty()
    } else {
        lines[0] + seq!['\n'] + join_lines(lines.skip(1))
    }
}

/// The full text of a dump of `bytes`, offsets counted from zero.
pub open spec fn spec_hexdump(
    bytes: Seq<u8>,
    width: nat,
    chunk: nat,
    show_offset: bool,
    translate: bool,
) -> Seq<char> {
    join_lines(dump_lines(bytes, 0, width, chunk, show_offset, translate))
}

/// A group renders two hex digits for each of its bytes.
pub proof fn lemma_group_hex_len(g: Seq<u8>)
    ensures
        group_hex(g).len() == 2 * g.len(),
    decreases g.len(),
{
    if g.len() > 0 {
        lemma_group_hex_len(g.skip(1));
    }
}

/// The bytes of the group starting at position `k * chunk` of a line: a full
/// chunk, or what remains of the line.
pub open spec fn line_group(line: Seq<u8>, chunk: nat, k: nat) -> Seq<u8>
    recommends
        chunk >= 1,
        k * chunk < line.len(),
{
    line.subrange((k * chunk) as int, min_nat((k + 1) * chunk, line.len()) as int)
}

/// Every emitted hex group contains `2 * min(chunk, remaining bytes in the
/// line)` hex digits: the group starting at position `k * chunk` of a line
/// covers `min(chunk, line.len() - k * chunk)` bytes and renders two digits
/// for each.
pub proof fn lemma_hex_group_digits(line: Seq<u8>, chunk: nat, k: nat)
    requires
        chunk >= 1,
        k * chunk < line.len(),
    ensures
        line_group(line, chunk, k).len() == min_nat(chunk, (line.len() - k * chunk) as nat),
        group_hex(line_group(line, chunk, k)).len() == 2 * min_nat(
            chunk,
            (line.len() - k * chunk) as nat,
        ),
{
    assert((k + 1) * chunk == k * chunk + chunk) by (nonlinear_arith);
    lemma_group_hex_len(line_group(line, chunk, k));
}

/// The first group of a line is what `line_body` emits first: a line's body
/// is its first group, one space, and the body of the rest.
pub proof fn lemma_line_body_first_group(line: Seq<u8>, chunk: nat)
    requires
        chunk >= 1,
        line.len() > 0,
    ensures
        line_body(line, chunk) == group_hex(line_group(line, chunk, 0)) + seq![' '] + line_body(
            line.skip(min_nat(chunk, line.len()) as int),
            chunk,
        ),
{
    assert(0 * chunk == 0) by (nonlinear_arith);
    assert((0 + 1) * chunk == chunk) by (nonlinear_arith);
    assert(line.take(min_nat(chunk, line.len()) as int) =~= line_group(line, chunk, 0));
}

/// Line `k` of a dump renders bytes `k * width` up to `(k + 1) * width`
/// (capped at the buffer's end), with its offset label counting `off` plus
/// the `k * width` bytes of all prior lines.
pub proof fn lemma_dump_line(
    bytes: Seq<u8>,
    off: nat,
    width: nat,
    chunk: nat,
    show_offset: bool,
    translate: bool,
    k: nat,
)
    requires
        width >= 1,
        k * width < bytes.len(),
    ensures
        k < dump_lines(bytes, off, width, chunk, show_offset, translate).len(),
        dump_lines(bytes, off, width, chunk, show_offset, translate)[k as int] == line_text(
            bytes.subrange((k * width) as int, min_nat((k + 1) * width, bytes.len()) as int),
            off + k * width,
            width,
            chunk,
            show_offset,
            translate,
        ),
    decreases k,
{
    let l = min_nat(width, bytes.len());
    if k == 0 {
        assert(0 * width == 0) by (nonlinear_arith);
        assert((0 + 1) * width == width) by (nonlinear_arith);
        assert(bytes.take(l as int) =~= bytes.subrange(0, min_nat(width, bytes.len()) as int));
    } else {
        let km1 = (k - 1) as nat;
        assert(k * width == km1 * width + width) by (nonlinear_arith)
            requires
                k >= 1,
                km1 == k - 1,
        ;
        assert((k + 1) * width == k * width + width) by (nonlinear_arith);
        assert(l == width);
        let tail = bytes.skip(width as int);
        lemma_dump_line(tail, off + width, width, chunk, show_offset, translate, km1);
        let a = (km1 * width) as int;
        let s1 = tail.subrange(a, min_nat((km1 + 1) * width, tail.len()) as int);
        let s2 = bytes.subrange((k * width) as int, min_nat((k + 1) * width, bytes.len()) as int);
        assert(s1.len() == s2.len());
        assert forall|x: int| 0 <= x < s1.len() implies s1[x] == s2[x] by {
            assert(s1[x] == tail[a + x]);
            assert(tail[a + x] == bytes[width + a + x]);
            assert(s2[x] == bytes[k * width + x]);
        };
        assert(s1 =~= s2);
        let tail_lines = dump_lines(tail, off + width, width, chunk, show_offset, translate);
        assert(dump_lines(bytes, off, width, chunk, show_offset, translate) == seq![
            line_text(bytes.take(width as int), off, width, chunk, show_offset, translate),
        ] + tail_lines);
        assert(dump_lines(bytes, off, width, chunk, show_offset, translate)[k as int]
            == tail_lines[km1 as int]);
    }
}

/// The offset label on line `k` of a dump equals the zero-padded hex of the
/// byte count of all prior lines (each prior line holds exactly `width`
/// bytes), counted from `off`.
pub proof fn lemma_offset_label(
    bytes: Seq<u8>,
    off: nat,
    width: nat,
    chunk: nat,
    translate: bool,
    k: nat,
)
    requires
        width >= 1,
        k * width < bytes.len(),
    ensures
        ({
            let label = hex_label(off + k * width, 8);
            let lines = dump_lines(bytes, off, width, chunk, true, translate);
            k < lines.len() && lines[k as int].take(label.len() as int) == label
        }),
{
    lemma_dump_line(bytes, off, width, chunk, true, translate, k);
    let label = hex_label(off + k * width, 8);
    let line = dump_lines(bytes, off, width, chunk, true, translate)[k as int];
    assert(line.take(label.len() as int) =~= label);
}

/// For a line of printable bytes (no control characters), the translation
/// column reproduces the bytes exactly, each interpreted as its character.
pub proof fn lemma_translation_round_trip(line: Seq<u8>)
    requires
        forall|i: int| 0 <= i < line.len() ==> 32 <= #[trigger] line[i] <= 126,
    ensures
        translation_chars(line).len() == line.len(),
        forall|i: int| 0 <= i < line.len() ==> #[trigger] translation_chars(line)[i] == line[i] as char,
{
}

/// The translation column stands at the line's end, between two pipes: a
/// line with translation is the same line without it, then the alignment
/// padding, two tabs, and the translated bytes delimited by `|...|`.
pub proof fn lemma_translation_column(
    line: Seq<u8>,
    off: nat,
    width: nat,
    chunk: nat,
    show_offset: bool,
)
    ensures
        line_text(line, off, width, chunk, show_offset, true) == line_text(
            line,
            off,
            width,
            chunk,
            show_offset,
            false,
        ) + spaces((hex_width(width, chunk) - hex_width(line.len(), chunk)) as nat)
            + seq!['\t', '\t', '|'] + translation_chars(line) + seq!['|'],
{
    assert(line_text(line, off, width, chunk, show_offset, true) =~= line_text(
        line,
        off,
        width,
        chunk,
        show_offset,
        false,
    ) + spaces((hex_width(width, chunk) - hex_width(line.len(), chunk)) as nat)
        + seq!['\t', '\t', '|'] + translation_chars(line) + seq!['|']);
}

/// Formatting is deterministic: the rendered text is a function of the
/// configuration and the bytes alone, so formatting the same pair twice
/// yields identical output.
pub proof fn lemma_format_deterministic(
    r1: Seq<char>,
    r2: Seq<char>,
    bytes: Seq<u8>,
    width: nat,
    chunk: nat,
    show_offset: bool,
    translate: bool,
)
    requires
        r1 == spec_hexdump(bytes, width, chunk, show_offset, translate),
        r2 == spec_hexdump(bytes, width, chunk, show_offset, translate),
    ensures
        r1 == r2,
{
}

/// Appends the hex digits of `bytes[from..to]` as one unbroken group.
fn push_group(out: &mut String, bytes: &Vec<u8>, from: usize, to: usize)
    requires
        from <= to <= bytes@.len(),
    ensures
        final(out)@ == old(out)@ + group_hex(bytes@.subrange(from as int, to as int)),
{
    let mut j: usize = from;
    while j < to
        invariant
            from <= j <= to <= bytes@.len(),
            out@ + group_hex(bytes@.subrange(j as int, to as int)) == old(out)@ + group_hex(
                bytes@.subrange(from as int, to as int),
            ),
        decreases to - j,
    {
        proof {
            let rest = bytes@.subrange(j as int, to as int);
            assert(rest[0] == bytes@[j as int]);
            assert(rest.skip(1) =~= bytes@.subrange(j + 1, to as int));
        }
        push_hex_byte(out, bytes[j]);
        j = j + 1;
    }
    assert(bytes@.subrange(to as int, to as int) =~= Seq::<u8>::empty());
}

/// Appends the space-separated hex groups of `bytes[from..to]`.
fn push_line_body(out: &mut String, bytes: &Vec<u8>, from: usize, to: usize, chunk: usize)
    requires
        from <= to <= bytes@.len(),
        chunk >= 1,
    ensures
        final(out)@ == old(out)@ + line_body(bytes@.subrange(from as int, to as int), chunk as nat),
{
    let mut j: usize = from;
    while j < to
        invariant
            from <= j <= to <= bytes@.len(),
            chunk >= 1,
            out@ + line_body(bytes@.subrange(j as int, to as int), chunk as nat) == old(out)@
                + line_body(bytes@.subrange(from as int, to as int), chunk as nat),
        decreases to - j,
    {
        let g: usize = if chunk < to - j {
            chunk
        } else {
            to - j
        };
        proof {
            let rest = bytes@.subrange(j as int, to as int);
            assert(min_nat(chunk as nat, rest.len()) == g as nat);
            assert(rest.take(g as int) =~= bytes@.subrange(j as int, (j + g) as int));
            assert(rest.skip(g as int) =~= bytes@.subrange((j + g) as int, to as int));
        }
        push_group(out, bytes, j, j + g);
        push_char(out, ' ');
        proof {
            assert(out@ + line_body(bytes@.subrange((j + g) as int, to as int), chunk as nat)
                =~= old(out)@ + line_body(bytes@.subrange(from as int, to as int), chunk as nat));
        }
        j = j + g;
    }
    assert(bytes@.subrange(to as int, to as int) =~= Seq::<u8>::empty());
}

/// Appends `n` spaces.
fn push_spaces(out: &mut String, n: usize)
    ensures
        final(out)@ == old(out)@ + spaces(n as nat),
{
    let mut k: usize = 0;
    while k < n
        invariant
            k <= n,
            out@ == old(out)@ + spaces(k as nat),
        decreases n - k,
    {
        push_char(out, ' ');
        assert(out@ =~= old(out)@ + spaces((k + 1) as nat));
        k = k + 1;
    }
    assert(out@ =~= old(out)@ + spaces(n as nat));
}

/// Appends the ASCII translation of `bytes[from..to]`.
fn push_translation(out: &mut String, bytes: &Vec<u8>, from: usize, to: usize)
    requires
        from <= to <= bytes@.len(),
    ensures
        final(out)@ == old(out)@ + translation_chars(bytes@.subrange(from as int, to as int)),
{
    let mut j: usize = from;
    while j < to
        invariant
            from <= j <= to <= bytes@.len(),
            out@ == old(out)@ + translation_chars(bytes@.subrange(from as int, j as int)),
        decreases to - j,
    {
        let b = bytes[j];
        let c: char = if b == 10 || b == 9 || b == 13 {
            ' '
        } else if 32 <= b && b <= 126 {
            b as char
        } else {
            '.'
        };
        assert(c == translate_byte(b));
        push_char(out, c);
        assert(out@ =~= old(out)@ + translation_chars(bytes@.subrange(from as int, j + 1)));
        j = j + 1;
    }
}

/// Appends one formatted line for `bytes[from..to]` with offset label `off`.
fn push_line_text(
    out: &mut String,
    bytes: &Vec<u8>,
    from: usize,
    to: usize,
    off: u64,
    width: usize,
    chunk: usize,
    show_offset: bool,
    translate: bool,
)
    requires
        from <= to <= bytes@.len(),
        chunk >= 1,
        to - from <= width,
        translate ==> 2 * width + width / chunk <= usize::MAX,
    ensures
        final(out)@ == old(out)@ + line_text(
            bytes@.subrange(from as int, to as int),
            off as nat,
            width as nat,
            chunk as nat,
            show_offset,
            translate,
        ),
{
    if show_offset {
        push_hex_label(out, off, 8);
        push_char(out, ' ');
        push_char(out, ' ');
        assert(out@ =~= old(out)@ + (hex_label(off as nat, 8) + seq![' ', ' ']));
    }
    push_line_body(out, bytes, from, to, chunk);
    if translate {
        let line_len: usize = to - from;
        proof {
            vstd::arithmetic::div_mod::lemma_div_is_ordered(
                line_len as int,
                width as int,
                chunk as int,
            );
        }
        let full_width: usize = width * 2 + width / chunk;
        let cur_width: usize = line_len * 2 + line_len / chunk;
        push_spaces(out, full_width - cur_width);
        push_char(out, '\t');
        push_char(out, '\t');
        push_char(out, '|');
        push_translation(out, bytes, from, to);
        push_char(out, '|');
    }
    proof {
        assert(out@ =~= old(out)@ + line_text(
            bytes@.subrange(from as int, to as int),
            off as nat,
            width as nat,
            chunk as nat,
            show_offset,
            translate,
        ));
    }
}

/// Renders a whole byte buffer as hex text under the given configuration:
/// one line per `width` bytes, each line as `line_text` describes, each
/// followed by a newline.
pub fn hexdump_from_input(args: Args, buffer: Vec<u8>) -> (r: String)
    requires
        args.width >= 1,
        args.chunk_size >= 1,
        args.translate ==> 2 * args.width + args.width / args.chunk_size <= usize::MAX,
    ensures
        r@ == spec_hexdump(
            buffer@,
            args.width as nat,
            args.chunk_size as nat,
            args.offset,
            args.translate,
        ),
{
    let mut output = String::new();
    let n = buffer.len();
    let mut pos: usize = 0;
    proof {
        assert(buffer@.skip(0) =~= buffer@);
        assert(output@ + spec_hexdump(
            buffer@,
            args.width as nat,
            args.chunk_size as nat,
            args.offset,
            args.translate,
        ) =~= spec_hexdump(
            buffer@,
            args.width as nat,
            args.chunk_size as nat,
            args.offset,
            args.translate,
        ));
    }
    while pos < n
        invariant
            pos <= n,
            n == buffer@.len(),
            args.width >= 1,
            args.chunk_size >= 1,
            args.translate ==> 2 * args.width + args.width / args.chunk_size <= usize::MAX,
            output@ + join_lines(
                dump_lines(
                    buffer@.skip(pos as int),
                    pos as nat,
                    args.width as nat,
                    args.chunk_size as nat,
                    args.offset,
                    args.translate,
                ),
            ) == spec_hexdump(
                buffer@,
                args.width as nat,
                args.chunk_size as nat,
                args.offset,
                args.translate,
            ),
        decreases n - pos,
    {
        let l: usize = if n - pos < args.width {
            n - pos
        } else {
            args.width
        };
        let ghost out0 = output@;
        proof {
            let rest = buffer@.skip(pos as int);
            assert(min_nat(args.width as nat, rest.len()) == l as nat);
            assert(rest.take(l as int) =~= buffer@.subrange(pos as int, (pos + l) as int));
            assert(rest.skip(l as int) =~= buffer@.skip((pos + l) as int));
            let lines = dump_lines(
                rest,
                pos as nat,
                args.width as nat,
                args.chunk_size as nat,
                args.offset,
                args.translate,
            );
            let tail_lines = dump_lines(
                buffer@.skip((pos + l) as int),
                (pos + l) as nat,
                args.width as nat,
                args.chunk_size as nat,
                args.offset,
                args.translate,
            );
            assert(lines[0] == line_text(
                buffer@.subrange(pos as int, (pos + l) as int),
                pos as nat,
                args.width as nat,
                args.chunk_size as nat,
                args.offset,
                args.translate,
            ));
            assert(lines.skip(1) =~= tail_lines);
        }
        push_line_text(
            &mut output,
            &buffer,
            pos,
            pos + l,
            pos as u64,
            args.width,
            args.chunk_size,
            args.offset,
            args.translate,
        );
        push_char(&mut output, '\n');
        proof {
            let lines = dump_lines(
                buffer@.skip(pos as int),
                pos as nat,
                args.width as nat,
                args.chunk_size as nat,
                args.offset,
                args.translate,
            );
            let tail_lines = dump_lines(
                buffer@.skip((pos + l) as int),
                (pos + l) as nat,
                args.width as nat,
                args.chunk_size as nat,
                args.offset,
                args.translate,
            );
            assert(output@ + join_lines(tail_lines) =~= out0 + join_lines(lines));
        }
        pos = pos + l;
    }
    proof {
        assert(buffer@.skip(pos as int) =~= Seq::<u8>::empty());
    }
    output
}

/// The error returned when the requested start offset does not lie inside
/// the file: seeking past the end is rejected rather than left to the
/// platform's seek behaviour.
#[derive(Clone, Copy, Debug, PartialEq, Eq, Structural)]
pub struct LengthError {
    /// The offending start offset.
    pub start: u64,
    /// The file's actual length in bytes.
    pub file_length: u64,
}

impl LengthError {
    /// The error's message text.
    pub fn message(&self) -> (s: String)
        ensures
            s@ == spec_length_error_message(self.start, self.file_length),
    {
        let mut s = String::new();
        s.append("Starting offset (");
        crate::text::push_decimal(&mut s, self.start);
        s.append(") was larger than the file length (");
        crate::text::push_decimal(&mut s, self.file_length);
        s.append(")");
        proof {
            assert(s@ =~= spec_length_error_message(self.start, self.file_length));
        }
        s
    }
}

/// The message of a `LengthError` for the given offset and file length.
pub open spec fn spec_length_error_message(start: u64, file_length: u64) -> Seq<char> {
    "Starting offset ("@ + crate::text::dec_digits(start as nat)
        + ") was larger than the file length ("@ + crate::text::dec_digits(file_length as nat)
        + ")"@
}

/// Whether a start offset lies inside a file of the given length.
pub open spec fn spec_offset_in_bounds(start: u64, file_length: u64) -> bool {
    start < file_length
}

/// How many bytes a bounded read yields: the requested count, capped at what
/// remains of the file past the start offset; the whole remainder when no
/// count is requested.
pub open spec fn spec_read_len(start: u64, num: Option<u64>, file_length: u64) -> int
    recommends
        start < file_length,
{
    let remaining = file_length - start;
    match num {
        Some(k) => if k < remaining {
            k as int
        } else {
            remaining
        },
        None => remaining,
    }
}

/// Validates a requested byte range against a file's length and returns the
/// number of bytes a reader must supply: exactly
/// `min(num.unwrap_or(remaining), remaining)` where `remaining` is what the
/// file holds past `start`.  Rejects a start offset at or past the end of
/// the file.
pub fn bounded_read_len(start: u64, num: Option<u64>, file_length: u64) -> (r: Result<
    u64,
    LengthError,
>)
    ensures
        match r {
            Ok(n) => spec_offset_in_bounds(start, file_length) && n == spec_read_len(
                start,
                num,
                file_length,
            ),
            Err(e) => !spec_offset_in_bounds(start, file_length) && e.start == start
                && e.file_length == file_length,
        },
{
    if start >= file_length {
        return Err(LengthError { start, file_length });
    }
    let remaining = file_length - start;
    match num {
        Some(k) => if k < remaining {
            Ok(k)
        } else {
            Ok(remaining)
        },
        None => Ok(remaining),
    }
}

/// At the boundary of the byte range: a start offset equal to the file's
/// length is rejected, while the last offset inside the file, one before the
/// end, is accepted and yields exactly one byte when no byte count is
/// requested.
pub proof fn lemma_read_boundary(file_length: u64)
    requires
        file_length >= 1,
    ensures
        !spec_offset_in_bounds(file_length, file_length),
        spec_offset_in_bounds((file_length - 1) as u64, file_length),
        spec_read_len((file_length - 1) as u64, None, file_length) == 1,
{
}

/// The mathematical image of a dump in progress.
pub struct HexdumpView {
    pub args: ArgsView,
    pub total_bytes: u64,
    pub bytes_read: u64,
}

/// A dump in progress over a validated byte range: it renders one line per
/// call, counting the bytes rendered so far, until `total_bytes` have been
/// consumed.  The bytes themselves are handed in line by line, so any
/// bounded byte source can feed it.
pub struct Hexdump {
    args: Args,
    total_bytes: u64,
    bytes_read: u64,
}

impl View for Hexdump {
    type V = HexdumpView;

    closed spec fn view(&self) -> HexdumpView {
        HexdumpView { args: self.args@, total_bytes: self.total_bytes, bytes_read: self.bytes_read }
    }
}

/// How many bytes the next line of a dump in progress covers: a full line's
/// `width`, or what is left when less remains.
pub open spec fn spec_next_len(h: HexdumpView) -> nat {
    min_nat(h.args.width as nat, (h.total_bytes - h.bytes_read) as nat)
}

impl Hexdump {
    /// A dump in progress is well formed when its configuration is valid,
    /// its padding arithmetic cannot overflow, and it has not read past its
    /// byte range.
    pub open spec fn wf(self) -> bool {
        &&& self@.args.width >= 1
        &&& self@.args.chunk_size >= 1
        &&& (self@.args.translate ==> 2 * self@.args.width + self@.args.width
            / self@.args.chunk_size <= usize::MAX)
        &&& self@.bytes_read <= self@.total_bytes
    }

    /// Starts a dump of the byte range that `args` selects from a file of
    /// `file_length` bytes.  Rejects a start offset at or past the end of
    /// the file; otherwise the range holds
    /// `min(num.unwrap_or(remaining), remaining)` bytes.
    pub fn new(args: Args, file_length: u64) -> (r: Result<Hexdump, LengthError>)
        requires
            args.width >= 1,
            args.chunk_size >= 1,
            args.translate ==> 2 * args.width + args.width / args.chunk_size <= usize::MAX,
        ensures
            match r {
                Ok(h) => {
                    &&& spec_offset_in_bounds(args.start, file_length)
                    &&& h.wf()
                    &&& h@.args == args@
                    &&& h@.bytes_read == 0
                    &&& h@.total_bytes == spec_read_len(args.start, args.num, file_length)
                },
                Err(e) => {
                    &&& !spec_offset_in_bounds(args.start, file_length)
                    &&& e.start == args.start
                    &&& e.file_length == file_length
                },
            },
    {
        let total_bytes = bounded_read_len(args.start, args.num, file_length)?;
        Ok(Hexdump { args, total_bytes, bytes_read: 0 })
    }

    /// Whether another line remains to be rendered.
    pub fn has_next(&self) -> (b: bool)
        ensures
            b == (self@.bytes_read < self@.total_bytes),
    {
        self.bytes_read < self.total_bytes
    }

    /// How many bytes the next line covers, and hence how many the byte
    /// source must supply to `read_next`.
    pub fn next_len(&self) -> (n: usize)
        requires
            self.wf(),
        ensures
            n as nat == spec_next_len(self@),
    {
        let remaining = self.total_bytes - self.bytes_read;
        if (self.args.width as u64) <= remaining {
            self.args.width
        } else {
            remaining as usize
        }
    }

    /// Renders the next line from the bytes the source supplied: the
    /// cumulative byte count as offset label when the offset column is on,
    /// the hex groups, and the translation column when it is on.  Advances
    /// the byte count by the line's length.
    pub fn read_next(&mut self, buf: &Vec<u8>) -> (r: String)
        requires
            old(self).wf(),
            old(self)@.bytes_read < old(self)@.total_bytes,
            buf@.len() == spec_next_len(old(self)@),
        ensures
            final(self).wf(),
            final(self)@.args == old(self)@.args,
            final(self)@.total_bytes == old(self)@.total_bytes,
            final(self)@.bytes_read == old(self)@.bytes_read + buf@.len(),
            r@ == line_text(
                buf@,
                old(self)@.bytes_read as nat,
                old(self)@.args.width as nat,
                old(self)@.args.chunk_size as nat,
                old(self)@.args.offset,
                old(self)@.args.translate,
            ),
    {
        let mut output = String::new();
        push_line_text(
            &mut output,
            buf,
            0,
            buf.len(),
            self.bytes_read,
            self.args.width,
            self.args.chunk_size,
            self.args.offset,
            self.args.translate,
        );
        proof {
            assert(buf@.subrange(0, buf@.len() as int) =~= buf@);
        }
        self.bytes_read = self.bytes_read + buf.len() as u64;
        output
    }
}

} // verus!
