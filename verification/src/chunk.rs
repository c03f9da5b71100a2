//! The compiled unit: an instruction stream, a constant pool, and a
//! run-length-compressed table mapping byte offsets to source lines.

use vstd::prelude::*;

use crate::value::Value;

verus! {

/// A single-byte instruction tag. The byte values are the wire format and
/// must stay stable; [`opcode_byte`] fixes them.
#[derive(Clone, Copy, Debug, PartialEq, Eq, Structural)]
pub enum OpCode {
    Constant,
    Constant16,
    Constant24,
    Nil,
    True,
    False,
    Add,
    Subtract,
    Multiply,
    Divide,
    Negate,
    Not,
    Equal,
    Greater,
    Less,
    Return,
}

/// The wire-format byte of each opcode.
pub open spec fn opcode_byte(op: OpCode) -> u8 {
    match op {
        OpCode::Constant => 0x00,
        OpCode::Constant16 => 0x01,
        OpCode::Constant24 => 0x02,
        OpCode::Nil => 0x03,
        OpCode::True => 0x04,
        OpCode::False => 0x05,
        OpCode::Add => 0x10,
        OpCode::Subtract => 0x11,
        OpCode::Multiply => 0x12,
        OpCode::Divide => 0x13,
        OpCode::Negate => 0x14,
        OpCode::Not => 0x15,
        OpCode::Equal => 0x16,
        OpCode::Greater => 0x17,
        OpCode::Less => 0x18,
        OpCode::Return => 0xFF,
    }
}

/// The opcode a byte decodes to, or `None` outside the known set.
pub open spec fn byte_to_opcode(byte: u8) -> Option<OpCode> {
    match byte {
        0x00 => Some(OpCode::Constant),
        0x01 => Some(OpCode::Constant16),
        0x02 => Some(OpCode::Constant24),
        0x03 => Some(OpCode::Nil),
        0x04 => Some(OpCode::True),
        0x05 => Some(OpCode::False),
        0x10 => Some(OpCode::Add),
        0x11 => Some(OpCode::Subtract),
        0x12 => Some(OpCode::Multiply),
        0x13 => Some(OpCode::Divide),
        0x14 => Some(OpCode::Negate),
        0x15 => Some(OpCode::Not),
        0x16 => Some(OpCode::Equal),
        0x17 => Some(OpCode::Greater),
        0x18 => Some(OpCode::Less),
        0xFF => Some(OpCode::Return),
        _ => None,
    }
}

/// The error an unknown instruction byte decodes to; holds the rendered byte.
#[derive(Debug)]
pub struct OpCodeError(pub String);

/// The lowercase hex digit for a value below sixteen.
pub open spec fn hex_char(n: u8) -> char {
    match n {
        0 => '0',
        1 => '1',
        2 => '2',
        3 => '3',
        4 => '4',
        5 => '5',
        6 => '6',
        7 => '7',
        8 => '8',
        9 => '9',
        10 => 'a',
        11 => 'b',
        12 => 'c',
        13 => 'd',
        14 => 'e',
        _ => 'f',
    }
}

/// The message reported for an instruction byte outside the known set.
pub open spec fn unknown_opcode_msg(byte: u8) -> Seq<char> {
    "UNKNOWN: 0x"@ + seq![hex_char(byte / 16), hex_char(byte % 16)]
}

/// The lowercase hex digit for `n`, as text.
fn hex_str(n: u8) -> (r: &'static str)
    requires
        n < 16,
    ensures
        r@ == seq![hex_char(n)],
{
    let r: &'static str = match n {
        0 => "0",
        1 => "1",
        2 => "2",
        3 => "3",
        4 => "4",
        5 => "5",
        6 => "6",
        7 => "7",
        8 => "8",
        9 => "9",
        10 => "a",
        11 => "b",
        12 => "c",
        13 => "d",
        14 => "e",
        _ => "f",
    };
    proof {
        reveal_strlit("0");
        reveal_strlit("1");
        reveal_strlit("2");
        reveal_strlit("3");
        reveal_strlit("4");
        reveal_strlit("5");
        reveal_strlit("6");
        reveal_strlit("7");
        reveal_strlit("8");
        reveal_strlit("9");
        reveal_strlit("a");
        reveal_strlit("b");
        reveal_strlit("c");
        reveal_strlit("d");
        reveal_strlit("e");
        reveal_strlit("f");
        assert(r@ =~= seq![hex_char(n)]);
    }
    r
}

impl OpCode {
    /// The wire-format byte of this opcode.
    pub fn as_byte(&self) -> (b: u8)
        ensures
            b == opcode_byte(*self),
    {
        match self {
            OpCode::Constant => 0x00,
            OpCode::Constant16 => 0x01,
            OpCode::Constant24 => 0x02,
            OpCode::Nil => 0x03,
            OpCode::True => 0x04,
            OpCode::False => 0x05,
            OpCode::Add => 0x10,
            OpCode::Subtract => 0x11,
            OpCode::Multiply => 0x12,
            OpCode::Divide => 0x13,
            OpCode::Negate => 0x14,
            OpCode::Not => 0x15,
            OpCode::Equal => 0x16,
            OpCode::Greater => 0x17,
            OpCode::Less => 0x18,
            OpCode::Return => 0xFF,
        }
    }

    /// Decodes one instruction byte, or reports the byte in hex when it is
    /// outside the known set.
    pub fn try_from(byte: u8) -> (r: Result<OpCode, OpCodeError>)
        ensures
            match byte_to_opcode(byte) {
                Some(op) => r == Ok::<OpCode, OpCodeError>(op),
                None => r is Err && r->Err_0.0@ == unknown_opcode_msg(byte),
            },
    {
        match byte {
            0x00 => Ok(OpCode::Constant),
            0x01 => Ok(OpCode::Constant16),
            0x02 => Ok(OpCode::Constant24),
            0x03 => Ok(OpCode::Nil),
            0x04 => Ok(OpCode::True),
            0x05 => Ok(OpCode::False),
            0x10 => Ok(OpCode::Add),
            0x11 => Ok(OpCode::Subtract),
            0x12 => Ok(OpCode::Multiply),
            0x13 => Ok(OpCode::Divide),
            0x14 => Ok(OpCode::Negate),
            0x15 => Ok(OpCode::Not),
            0x16 => Ok(OpCode::Equal),
            0x17 => Ok(OpCode::Greater),
            0x18 => Ok(OpCode::Less),
            0xFF => Ok(OpCode::Return),
            _ => {
                let mut msg = "UNKNOWN: 0x".to_owned();
                msg.append(hex_str(byte / 16));
                msg.append(hex_str(byte % 16));
                Err(OpCodeError(msg))
            },
        }
    }
}

/// One record of the line table: every instruction byte from `start` up to
/// the next record belongs to source line `line`.
#[derive(Clone, Copy, Debug, PartialEq, Eq, Structural)]
pub struct LineRun {
    pub line: usize,
    pub start: usize,
}

/// The run-length-compressed offset-to-line table: consecutive bytes sharing
/// a source line are merged into one record.
pub struct Lines {
    runs: Vec<LineRun>,
}

/// The table's shape: record starts strictly increase, and adjacent records
/// name different lines (runs are maximal).
pub open spec fn lines_wf(runs: Seq<LineRun>) -> bool {
    &&& forall|i: int, j: int| 0 <= i < j < runs.len() ==> runs[i].start < runs[j].start
    &&& forall|i: int| 0 <= i < runs.len() - 1 ==> #[trigger] runs[i].line != runs[i + 1].line
}

/// The table after recording that the byte at `offset` belongs to `line`: a
/// byte on the same line as the latest record joins its run, any other opens
/// a new one.
pub open spec fn spec_add_line(runs: Seq<LineRun>, line: usize, offset: usize) -> Seq<LineRun> {
    if runs.len() > 0 && runs.last().line == line {
        runs
    } else {
        runs.push(LineRun { line, start: offset })
    }
}

/// The line owning the byte at `offset`: that of the latest record starting
/// at or before it, or `None` when no record does.
pub open spec fn spec_line_at(runs: Seq<LineRun>, offset: int) -> Option<usize>
    decreases runs.len(),
{
    if runs.len() == 0 {
        None
    } else if runs.last().start <= offset {
        Some(runs.last().line)
    } else {
        spec_line_at(runs.drop_last(), offset)
    }
}

impl View for Lines {
    type V = Seq<LineRun>;

    closed spec fn view(&self) -> Seq<LineRun> {
        self.runs@
    }
}

impl Lines {
    /// An empty table.
    pub fn new() -> (r: Lines)
        ensures
            r@ == Seq::<LineRun>::empty(),
    {
        Lines { runs: Vec::new() }
    }

    /// Records that the byte at `offset` belongs to `line`.
    pub fn add_byte(&mut self, line: usize, offset: usize)
        requires
            lines_wf(old(self)@),
            old(self)@.len() > 0 ==> old(self)@.last().start <= offset,
            old(self)@.len() > 0 && old(self)@.last().line != line ==> old(
                self,
            )@.last().start < offset,
        ensures
            final(self)@ == spec_add_line(old(self)@, line, offset),
            lines_wf(final(self)@),
    {
        let n = self.runs.len();
        if n > 0 && self.runs[n - 1].line == line {
            return ;
        }
        self.runs.push(LineRun { line, start: offset });
        proof {
            assert forall|i: int, j: int| 0 <= i < j < self@.len() implies self@[i].start
                < self@[j].start by {
                if j + 1 < self@.len() {
                } else {
                    if i + 1 < self@.len() - 1 {
                        assert(old(self)@[i].start < old(self)@[self@.len() - 2].start);
                    }
                }
            }
        }
    }

    /// How many records the table holds.
    pub fn len(&self) -> (n: usize)
        ensures
            n == self@.len(),
    {
        self.runs.len()
    }

    /// The record at `i`.
    pub fn run_at(&self, i: usize) -> (r: LineRun)
        requires
            i < self@.len(),
        ensures
            r == self@[i as int],
    {
        self.runs[i]
    }

    /// The line owning the byte at `offset`, or `None` when no record covers
    /// it.
    pub fn find_line(&self, offset: usize) -> (r: Option<usize>)
        ensures
            r == spec_line_at(self@, offset as int),
    {
        let mut i: usize = self.runs.len();
        proof {
            assert(self@.take(i as int) =~= self@);
        }
        while i > 0
            invariant
                i <= self@.len(),
                spec_line_at(self@, offset as int) == spec_line_at(
                    self@.take(i as int),
                    offset as int,
                ),
            decreases i,
        {
            i = i - 1;
            let run = self.runs[i];
            proof {
                assert(self@.take(i + 1).last() == self@[i as int]);
                assert(self@.take(i + 1).drop_last() =~= self@.take(i as int));
            }
            if run.start <= offset {
                return Some(run.line);
            }
        }
        None
    }
}

/// The mathematical content of a [`Chunk`]: its instruction bytes, constant
/// pool, line table, and source text.
pub struct ChunkView {
    pub code: Seq<u8>,
    pub consts: Seq<Value>,
    pub lines: Seq<LineRun>,
    pub source: Seq<char>,
}

/// A chunk's invariant: a well-formed line table whose latest record starts
/// inside the instruction stream.
pub open spec fn chunk_wf(cv: ChunkView) -> bool {
    &&& lines_wf(cv.lines)
    &&& cv.lines.len() > 0 ==> cv.lines.last().start < cv.code.len()
}

/// The chunk after one byte is appended on `line`.
pub open spec fn spec_write(cv: ChunkView, byte: u8, line: usize) -> ChunkView {
    ChunkView {
        code: cv.code.push(byte),
        consts: cv.consts,
        lines: spec_add_line(cv.lines, line, cv.code.len() as usize),
        source: cv.source,
    }
}

/// The chunk after an opcode is appended on `line`.
pub open spec fn spec_write_instr(cv: ChunkView, op: OpCode, line: usize) -> ChunkView {
    spec_write(cv, opcode_byte(op), line)
}

/// The bytes loading constant pool entry `handle`: the opcode of the
/// narrowest sufficient encoding, then the index itself, big-endian.
pub open spec fn const_load_encoding(handle: int) -> Seq<u8> {
    if handle <= 255 {
        seq![opcode_byte(OpCode::Constant), handle as u8]
    } else if handle <= 65535 {
        seq![opcode_byte(OpCode::Constant16), (handle / 256) as u8, (handle % 256) as u8]
    } else {
        // Only the low 24 bits of the index are representable.
        seq![
            opcode_byte(OpCode::Constant24),
            ((handle / 65536) % 256) as u8,
            ((handle / 256) % 256) as u8,
            (handle % 256) as u8,
        ]
    }
}

/// A compiled unit: the instruction stream, the constant pool (insertion
/// order is index), the line table, and the source it came from. Built once
/// by the compiler, then only read by the VM.
pub struct Chunk {
    source: String,
    data: Vec<u8>,
    constants: Vec<Value>,
    lines: Lines,
}

impl View for Chunk {
    type V = ChunkView;

    closed spec fn view(&self) -> ChunkView {
        ChunkView {
            code: self.data@,
            consts: self.constants@,
            lines: self.lines@,
            source: self.source@,
        }
    }
}

impl Chunk {
    /// An empty chunk.
    pub fn new() -> (c: Chunk)
        ensures
            c@.code == Seq::<u8>::empty(),
            c@.consts == Seq::<Value>::empty(),
            c@.lines == Seq::<LineRun>::empty(),
            c@.source == Seq::<char>::empty(),
            chunk_wf(c@),
    {
        Chunk { source: String::new(), data: Vec::new(), constants: Vec::new(), lines: Lines::new() }
    }

    /// Appends one byte, recording its source line.
    fn write(&mut self, byte: u8, line: usize)
        requires
            chunk_wf(old(self)@),
        ensures
            final(self)@ == spec_write(old(self)@, byte, line),
            chunk_wf(final(self)@),
    {
        self.data.push(byte);
        self.lines.add_byte(line, self.data.len() - 1);
    }

    /// Appends the opcode's single byte, recording its source line.
    pub fn write_instr(&mut self, op: OpCode, line: usize)
        requires
            chunk_wf(old(self)@),
        ensures
            final(self)@ == spec_write_instr(old(self)@, op, line),
            chunk_wf(final(self)@),
    {
        let byte = op.as_byte();
        self.write(byte, line);
    }

    /// Appends `bytes` as one run on `line`. Recording a line for no bytes
    /// would leave an empty run, so nothing is recorded when `bytes` is
    /// empty.
    pub fn extend(&mut self, bytes: &[u8], line: usize)
        requires
            chunk_wf(old(self)@),
        ensures
            final(self)@.code == old(self)@.code + bytes@,
            final(self)@.consts == old(self)@.consts,
            final(self)@.source == old(self)@.source,
            final(self)@.lines == if bytes@.len() > 0 {
                spec_add_line(old(self)@.lines, line, old(self)@.code.len() as usize)
            } else {
                old(self)@.lines
            },
            chunk_wf(final(self)@),
    {
        if bytes.len() == 0 {
            proof {
                assert(final(self)@.code =~= old(self)@.code + bytes@);
            }
            return ;
        }
        self.lines.add_byte(line, self.data.len());
        let mut i: usize = 0;
        while i < bytes.len()
            invariant
                i <= bytes@.len(),
                self.data@ == old(self)@.code + bytes@.take(i as int),
                self.constants@ == old(self)@.consts,
                self.source@ == old(self)@.source,
                self.lines@ == spec_add_line(old(self)@.lines, line, old(self)@.code.len() as usize),
                lines_wf(self.lines@),
                self.lines@.len() > 0,
                self.lines@.last().start <= old(self)@.code.len(),
            decreases bytes@.len() - i,
        {
            self.data.push(bytes[i]);
            proof {
                assert(self.data@ =~= old(self)@.code + bytes@.take(i + 1));
            }
            i += 1;
        }
        proof {
            assert(self.data@ =~= old(self)@.code + bytes@);
        }
    }

    /// Appends `value` to the constant pool and returns its index.
    fn add_constant(&mut self, value: Value) -> (handle: usize)
        ensures
            final(self)@.consts == old(self)@.consts.push(value),
            final(self)@.code == old(self)@.code,
            final(self)@.lines == old(self)@.lines,
            final(self)@.source == old(self)@.source,
            handle == old(self)@.consts.len(),
    {
        self.constants.push(value);
        self.constants.len() - 1
    }

    /// Inserts `value` into the constant pool and emits a load for it, using
    /// the narrowest encoding whose operand can hold the new index: one byte
    /// up to index 255, two big-endian bytes up to 65535, and three
    /// big-endian bytes (the low 24 bits of the index) above that.
    pub fn write_const(&mut self, value: Value, line: usize)
        requires
            chunk_wf(old(self)@),
        ensures
            final(self)@.consts == old(self)@.consts.push(value),
            final(self)@.code == old(self)@.code + const_load_encoding(
                old(self)@.consts.len() as int,
            ),
            final(self)@.lines == spec_add_line(
                old(self)@.lines,
                line,
                old(self)@.code.len() as usize,
            ),
            final(self)@.source == old(self)@.source,
            chunk_wf(final(self)@),
    {
        let handle = self.add_constant(value);
        let ghost cv = self@;
        if handle <= 255 {
            self.write(OpCode::Constant.as_byte(), line);
            self.write((handle % 256) as u8, line);
        } else if handle <= 65535 {
            self.write(OpCode::Constant16.as_byte(), line);
            self.write(((handle / 256) % 256) as u8, line);
            self.write((handle % 256) as u8, line);
        } else {
            self.write(OpCode::Constant24.as_byte(), line);
            self.write(((handle / 65536) % 256) as u8, line);
            self.write(((handle / 256) % 256) as u8, line);
            self.write((handle % 256) as u8, line);
        }
        proof {
            assert(final(self)@.code =~= old(self)@.code + const_load_encoding(
                old(self)@.consts.len() as int,
            ));
        }
    }

    /// Attaches the source text the chunk was compiled from.
    pub fn set_source(&mut self, src: String)
        ensures
            final(self)@.source == src@,
            final(self)@.code == old(self)@.code,
            final(self)@.consts == old(self)@.consts,
            final(self)@.lines == old(self)@.lines,
    {
        self.source = src;
    }

    /// How many bytes the instruction stream holds.
    pub fn len(&self) -> (n: usize)
        ensures
            n == self@.code.len(),
    {
        self.data.len()
    }

    /// The instruction byte at `offset`.
    pub fn byte_at(&self, offset: usize) -> (b: u8)
        requires
            offset < self@.code.len(),
        ensures
            b == self@.code[offset as int],
    {
        self.data[offset]
    }

    /// How many values the constant pool holds.
    pub fn constants_len(&self) -> (n: usize)
        ensures
            n == self@.consts.len(),
    {
        self.constants.len()
    }

    /// The constant pool entry at `handle`.
    pub fn const_at(&self, handle: usize) -> (v: Value)
        requires
            handle < self@.consts.len(),
        ensures
            v == self@.consts[handle as int],
    {
        self.constants[handle]
    }

    /// How many records the line table holds.
    pub fn lines_len(&self) -> (n: usize)
        ensures
            n == self@.lines.len(),
    {
        self.lines.len()
    }

    /// The line table record at `i`.
    pub fn line_run_at(&self, i: usize) -> (r: LineRun)
        requires
            i < self@.lines.len(),
        ensures
            r == self@.lines[i as int],
    {
        self.lines.run_at(i)
    }

    /// The source line owning the instruction byte at `offset`.
    pub fn line_at(&self, offset: usize) -> (r: Option<usize>)
        ensures
            r == spec_line_at(self@.lines, offset as int),
    {
        self.lines.find_line(offset)
    }

    /// The source text the chunk was compiled from.
    pub fn source(&self) -> (s: &String)
        ensures
            s@ == self@.source,
    {
        &self.source
    }
}

/// Two instructions written in immediate succession with the same line number
/// share a single line-table record, and the offset-to-line lookup returns
/// that line for every byte of the record's run.
pub proof fn lemma_same_line_writes_share_run(cv: ChunkView, op1: OpCode, op2: OpCode, line: usize)
    requires
        chunk_wf(cv),
        cv.code.len() <= usize::MAX,
    ensures
        ({
            let cv2 = spec_write_instr(spec_write_instr(cv, op1, line), op2, line);
            let run_start = if cv.lines.len() > 0 && cv.lines.last().line == line {
                cv.lines.last().start as int
            } else {
                cv.code.len() as int
            };
            &&& chunk_wf(cv2)
            &&& cv2.code == cv.code + seq![opcode_byte(op1), opcode_byte(op2)]
            &&& cv2.lines.len() <= cv.lines.len() + 1
            &&& forall|o: int|
                run_start <= o < cv2.code.len() ==> spec_line_at(cv2.lines, o) == Some(line)
        }),
{
    let cv1 = spec_write_instr(cv, op1, line);
    let cv2 = spec_write_instr(cv1, op2, line);
    assert(cv2.code =~= cv.code + seq![opcode_byte(op1), opcode_byte(op2)]);
    if cv.lines.len() > 0 && cv.lines.last().line == line {
        assert(cv2.lines == cv.lines);
        assert(forall|o: int|
            cv.lines.last().start <= o ==> spec_line_at(cv2.lines, o) == Some(line));
    } else {
        let added = LineRun { line, start: cv.code.len() as usize };
        assert(cv1.lines == cv.lines.push(added));
        assert(cv1.lines.last().line == line);
        assert(cv2.lines == cv1.lines);
        assert forall|i: int, j: int| 0 <= i < j < cv2.lines.len() implies cv2.lines[i].start
            < cv2.lines[j].start by {
            if j == cv2.lines.len() - 1 {
                if i < cv.lines.len() - 1 {
                    assert(cv.lines[i].start < cv.lines[cv.lines.len() - 1].start);
                }
                assert(cv.lines[i].start < cv.code.len());
            }
        }
        assert(forall|o: int|
            cv.code.len() <= o ==> spec_line_at(cv2.lines, o) == Some(line));
    }
}


/// The big-endian value of the `n` bytes of `code` starting at `i`.
pub open spec fn be_value(code: Seq<u8>, i: int, n: int) -> int
    decreases n,
{
    if n <= 0 {
        0
    } else {
        be_value(code, i, n - 1) * 256 + code[i + n - 1]
    }
}

/// An operand of at most three bytes stays below 2^24 (and below 2^16 or
/// 2^8 for shorter ones).
pub proof fn lemma_be_value_small(code: Seq<u8>, i: int, n: int)
    requires
        0 <= n <= 3,
    ensures
        0 <= be_value(code, i, n) < 0x1000000,
        n <= 2 ==> be_value(code, i, n) < 0x10000,
        n <= 1 ==> be_value(code, i, n) < 0x100,
    decreases n,
{
    if n > 0 {
        lemma_be_value_small(code, i, n - 1);
    }
}

/// An operand reads the same at an offset into another stream whose bytes
/// there agree.
pub proof fn lemma_be_value_offset(a: Seq<u8>, b: Seq<u8>, off: int, i: int, n: int)
    requires
        0 <= n,
        forall|j: int| 0 <= j < n ==> a[off + i + j] == #[trigger] b[i + j],
    ensures
        be_value(a, off + i, n) == be_value(b, i, n),
    decreases n,
{
    if n > 0 {
        lemma_be_value_offset(a, b, off, i, n - 1);
        assert(a[off + i + (n - 1)] == b[i + (n - 1)]);
    }
}

/// A constant load recovers the pool index it was written with: entries up
/// to 255 use the 1-byte form, entries up to 65535 the 2-byte big-endian
/// form, and later entries the 3-byte big-endian form, whose operand is the
/// index's low 24 bits; below that ceiling the recovered operand is the
/// insertion order itself.
pub proof fn lemma_const_load_recovers_index(h: int)
    requires
        0 <= h,
    ensures
        ({
            let e = const_load_encoding(h);
            &&& h <= 255 ==> e[0] == opcode_byte(OpCode::Constant) && e.len() == 2 && be_value(
                e,
                1,
                1,
            ) == h
            &&& 256 <= h <= 65535 ==> e[0] == opcode_byte(OpCode::Constant16) && e.len() == 3
                && be_value(e, 1, 2) == h
            &&& 65535 < h ==> e[0] == opcode_byte(OpCode::Constant24) && e.len() == 4 && be_value(
                e,
                1,
                3,
            ) == h % 0x1000000
        }),
{
    let e = const_load_encoding(h);
    if h <= 255 {
        assert(be_value(e, 1, 0) == 0);
        assert(be_value(e, 1, 1) == h);
    } else if h <= 65535 {
        assert(h / 256 < 256);
        vstd::arithmetic::div_mod::lemma_fundamental_div_mod(h, 256);
        assert(be_value(e, 1, 0) == 0);
        assert(be_value(e, 1, 1) == h / 256);
        assert(be_value(e, 1, 2) == h);
    } else {
        vstd::arithmetic::div_mod::lemma_breakdown(h, 65536, 256);
        vstd::arithmetic::div_mod::lemma_breakdown(h, 256, 256);
        assert(be_value(e, 1, 0) == 0);
        assert(be_value(e, 1, 1) == (h / 65536) % 256);
        assert(be_value(e, 1, 2) == ((h / 65536) % 256) * 256 + (h / 256) % 256);
        assert(be_value(e, 1, 3) == (((h / 65536) % 256) * 256 + (h / 256) % 256) * 256 + h % 256);
        assert(be_value(e, 1, 3) == h % 0x1000000);
    }
}

/// An operand reads the same from any stream agreeing on its bytes.
pub proof fn lemma_be_value_same(c: Seq<u8>, c2: Seq<u8>, i: int, n: int)
    requires
        0 <= i,
        0 <= n,
        i + n <= c.len(),
        forall|k: int| 0 <= k < c.len() ==> c2[k] == #[trigger] c[k],
    ensures
        be_value(c2, i, n) == be_value(c, i, n),
    decreases n,
{
    if n > 0 {
        lemma_be_value_same(c, c2, i, n - 1);
    }
}

/// Whether `op` is one of the three constant-load opcodes.
pub open spec fn is_const_load(op: OpCode) -> bool {
    op == OpCode::Constant || op == OpCode::Constant16 || op == OpCode::Constant24
}

/// How many operand bytes follow a constant-load opcode.
pub open spec fn const_load_width(op: OpCode) -> int {
    if op == OpCode::Constant {
        1
    } else if op == OpCode::Constant16 {
        2
    } else {
        3
    }
}

/// Whether the instruction stream decodes cleanly from `ip` on: every byte
/// there begins a known instruction, every constant load has its operand
/// bytes, and every loaded index points into a pool of `nconsts` values.
pub open spec fn code_decodes(code: Seq<u8>, nconsts: int, ip: int) -> bool
    decreases code.len() - ip,
    when 0 <= ip
{
    if ip >= code.len() {
        true
    } else {
        match byte_to_opcode(code[ip]) {
            None => false,
            Some(op) => if is_const_load(op) {
                let n = const_load_width(op);
                &&& ip + n < code.len()
                &&& be_value(code, ip + 1, n) < nconsts
                &&& code_decodes(code, nconsts, ip + n + 1)
            } else {
                code_decodes(code, nconsts, ip + 1)
            },
        }
    }
}

/// A chunk whose whole instruction stream decodes against its own pool.
pub open spec fn chunk_decodes(cv: ChunkView) -> bool {
    code_decodes(cv.code, cv.consts.len() as int, 0)
}

/// A decodable stream stays decodable when whole instructions follow it and
/// the pool only grows: decoding walks the old bytes exactly as before and
/// then enters the appended tail.
pub proof fn lemma_code_decodes_extend(c: Seq<u8>, c2: Seq<u8>, k0: int, k1: int, ip: int)
    requires
        0 <= ip <= c.len(),
        k0 <= k1,
        c.is_prefix_of(c2),
        code_decodes(c, k0, ip),
        code_decodes(c2, k1, c.len() as int),
    ensures
        code_decodes(c2, k1, ip),
    decreases c.len() - ip,
{
    assert forall|k: int| 0 <= k < c.len() implies c2[k] == #[trigger] c[k] by {
        assert(c[k] == c2.subrange(0, c.len() as int)[k]);
    }
    if ip < c.len() {
        match byte_to_opcode(c[ip]) {
            Some(op) => {
                if is_const_load(op) {
                    let n = const_load_width(op);
                    lemma_be_value_same(c, c2, ip + 1, n);
                    lemma_code_decodes_extend(c, c2, k0, k1, ip + n + 1);
                } else {
                    lemma_code_decodes_extend(c, c2, k0, k1, ip + 1);
                }
            },
            None => {},
        }
    }
}

} // verus!
