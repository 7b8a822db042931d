//! The disassembler: a chunk as text, one line for each instruction.
//!
//! A line has the form `OOOO LLLL MNEMONIC VALUE`: the instruction's offset
//! in four digits, its source line in a field of four characters (or a bar,
//! where the line is that of the instruction before), the operation's name
//! and, for a load, the constant.
//!
//! A double is not written here. The disassembly is a sequence of fragments:
//! text, and between the texts the numbers, by their bits, for the caller to
//! write as floating-point literals. What the text is, however the numbers
//! are written, is said by `disassembly_text`.
use vstd::prelude::*;
use vstd::string::*;
use crate::text::{
    append_decimal_field, append_left_aligned, decimal, decimal_value, left_aligned,
    lemma_aligned_len, lemma_decimal_digits, lemma_zero_padded_reads_back, right_aligned,
};
use crate::value::Value;
use crate::vm::{Chunk, ChunkView, Instruction, OpCode};

verus! {

/// A piece of a disassembly.
pub enum Fragment {
    /// Text, to be written as it stands.
    Text(String),
    /// A double, by its bits, to be written as a floating-point literal.
    Number(u64),
}

/// What a fragment holds.
pub enum FragmentView {
    Text(Seq<char>),
    Number(u64),
}

impl View for Fragment {
    type V = FragmentView;

    open spec fn view(&self) -> FragmentView {
        match self {
            Fragment::Text(text) => FragmentView::Text(text@),
            Fragment::Number(bits) => FragmentView::Number(*bits),
        }
    }
}

/// A way to write numbers: the text of each double, by its bits.
pub type Numeral = spec_fn(u64) -> Seq<char>;

/// What each of `fragments` holds, in order.
pub open spec fn views(fragments: Seq<Fragment>) -> Seq<FragmentView> {
    fragments.map_values(|f: Fragment| f@)
}

/// The text that `fragments` make when each number is written as `numeral` says.
pub open spec fn written(fragments: Seq<FragmentView>, numeral: Numeral) -> Seq<char>
    decreases fragments.len(),
{
    if fragments.len() == 0 {
        Seq::empty()
    } else {
        written(fragments.drop_last(), numeral) + match fragments.last() {
            FragmentView::Text(text) => text,
            FragmentView::Number(bits) => numeral(bits),
        }
    }
}

/// The line that names the chunk.
pub open spec fn banner(name: Seq<char>) -> Seq<char> {
    "== "@ + name + " ==\n"@
}

/// An instruction's offset, in at least four digits.
pub open spec fn offset_field(offset: nat) -> Seq<char> {
    right_aligned(decimal(offset), 4, '0')
}

/// An instruction's source line in a field of four characters, or a bar in
/// its place where the instruction continues the line of the one before.
pub open spec fn line_field(line: usize, continue_line: bool) -> Seq<char> {
    if continue_line {
        "   |"@
    } else {
        right_aligned(decimal(line as nat), 4, ' ')
    }
}

/// What stands in front of the operation: offset and line, a space after each.
pub open spec fn line_head(line: usize, continue_line: bool, offset: nat) -> Seq<char> {
    offset_field(offset) + " "@ + line_field(line, continue_line) + " "@
}

/// A value as text, its number written as `numeral` says.
pub open spec fn value_text(value: Value, numeral: Numeral) -> Seq<char> {
    match value {
        Value::Undef => "Undef"@,
        Value::Number(bits) => "Number("@ + numeral(bits) + ")"@,
    }
}

/// The constant that a load at `idx` shows: the pool's, or the placeholder
/// where the pool has none there.
pub open spec fn shown_constant(chunk: ChunkView, idx: usize) -> Value {
    match chunk.constant(idx) {
        Some(value) => value,
        None => Value::Undef,
    }
}

/// An operation as text: its name, and for a load the name in a field of 16
/// characters, a space and the constant.
pub open spec fn operation_text(chunk: ChunkView, op_code: OpCode, numeral: Numeral) -> Seq<char> {
    match op_code {
        OpCode::Return => "OP_RETURN"@,
        OpCode::Constant(idx) => {
            left_aligned("OP_CONSTANT"@, 16) + " "@ + value_text(
                shown_constant(chunk, idx),
                numeral,
            )
        },
    }
}

/// The line of one instruction, with the line break that ends it.
pub open spec fn instruction_text(
    chunk: ChunkView,
    inst: Instruction,
    continue_line: bool,
    offset: nat,
    numeral: Numeral,
) -> Seq<char> {
    line_head(inst.line, continue_line, offset) + operation_text(chunk, inst.op_code, numeral)
        + "\n"@
}

/// The instruction at `offset` has the source line of the one before it. The
/// first instruction has none before it.
pub open spec fn continues_line(code: Seq<Instruction>, offset: int) -> bool {
    0 < offset < code.len() && code[offset - 1].line == code[offset].line
}

/// The line of the instruction at `offset` of `chunk`.
pub open spec fn line_text(chunk: ChunkView, offset: int, numeral: Numeral) -> Seq<char> {
    instruction_text(
        chunk,
        chunk.code[offset],
        continues_line(chunk.code, offset),
        offset as nat,
        numeral,
    )
}

/// The lines of the first `count` instructions.
pub open spec fn listing_text(chunk: ChunkView, count: nat, numeral: Numeral) -> Seq<char>
    decreases count,
{
    if count == 0 {
        Seq::empty()
    } else {
        listing_text(chunk, (count - 1) as nat, numeral) + line_text(chunk, count - 1, numeral)
    }
}

/// The whole disassembly as text: the banner, then a line for each instruction.
pub open spec fn disassembly_text(chunk: ChunkView, name: Seq<char>, numeral: Numeral) -> Seq<
    char,
> {
    banner(name) + listing_text(chunk, chunk.code.len(), numeral)
}

/// The fragments of a line that shows `value` behind `head` and the
/// operation's name: one text, or for a number the text before it, the
/// number, and the text behind it.
pub open spec fn constant_fragments(head: Seq<char>, name: Seq<char>, value: Value) -> Seq<
    FragmentView,
> {
    let front = head + left_aligned(name, 16) + " "@;
    match value {
        Value::Undef => seq![FragmentView::Text(front + "Undef"@ + "\n"@)],
        Value::Number(bits) => seq![
            FragmentView::Text(front + "Number("@),
            FragmentView::Number(bits),
            FragmentView::Text(")"@ + "\n"@),
        ],
    }
}

/// The fragments of one instruction's line.
pub open spec fn instruction_fragments(
    chunk: ChunkView,
    inst: Instruction,
    continue_line: bool,
    offset: nat,
) -> Seq<FragmentView> {
    let head = line_head(inst.line, continue_line, offset);
    match inst.op_code {
        OpCode::Return => seq![FragmentView::Text(head + "OP_RETURN"@ + "\n"@)],
        OpCode::Constant(idx) => {
            constant_fragments(head, "OP_CONSTANT"@, shown_constant(chunk, idx))
        },
    }
}

/// The fragments of the line of the instruction at `offset` of `chunk`.
pub open spec fn line_fragments(chunk: ChunkView, offset: int) -> Seq<FragmentView> {
    instruction_fragments(
        chunk,
        chunk.code[offset],
        continues_line(chunk.code, offset),
        offset as nat,
    )
}

/// The fragments of the lines of the first `count` instructions.
pub open spec fn listing(chunk: ChunkView, count: nat) -> Seq<FragmentView>
    decreases count,
{
    if count == 0 {
        Seq::empty()
    } else {
        listing(chunk, (count - 1) as nat) + line_fragments(chunk, count - 1)
    }
}

/// The fragments of the whole disassembly: the banner, then the lines.
pub open spec fn disassembly(chunk: ChunkView, name: Seq<char>) -> Seq<FragmentView> {
    seq![FragmentView::Text(banner(name))] + listing(chunk, chunk.code.len())
}

/// Fragments written one after another give their texts one after another.
pub proof fn lemma_written_concat(
    front: Seq<FragmentView>,
    back: Seq<FragmentView>,
    numeral: Numeral,
)
    ensures
        written(front + back, numeral) == written(front, numeral) + written(back, numeral),
    decreases back.len(),
{
    if back.len() == 0 {
        assert(front + back =~= front);
        assert(written(front, numeral) + written(back, numeral) =~= written(front, numeral));
    } else {
        assert((front + back).drop_last() =~= front + back.drop_last());
        lemma_written_concat(front, back.drop_last(), numeral);
        let last = match back.last() {
            FragmentView::Text(text) => text,
            FragmentView::Number(bits) => numeral(bits),
        };
        assert(written(front + back, numeral) =~= written(front, numeral) + (written(
            back.drop_last(),
            numeral,
        ) + last));
    }
}

/// The fragments of a line, written, are the line.
pub proof fn lemma_instruction_written(
    chunk: ChunkView,
    inst: Instruction,
    continue_line: bool,
    offset: nat,
    numeral: Numeral,
)
    ensures
        written(instruction_fragments(chunk, inst, continue_line, offset), numeral)
            == instruction_text(chunk, inst, continue_line, offset, numeral),
{
    let fragments = instruction_fragments(chunk, inst, continue_line, offset);
    let line = instruction_text(chunk, inst, continue_line, offset, numeral);
    let none = Seq::<FragmentView>::empty();
    assert(written(none, numeral) =~= Seq::<char>::empty());
    if fragments.len() == 1 {
        assert(fragments.drop_last() =~= none);
        assert(written(fragments, numeral) =~= line);
    } else {
        let bits = fragments[1]->Number_0;
        let one = seq![fragments[0]];
        let two = seq![fragments[0], fragments[1]];
        assert(one.drop_last() =~= none);
        assert(two.drop_last() =~= one);
        assert(fragments.drop_last() =~= two);
        assert(written(one, numeral) =~= fragments[0]->Text_0);
        assert(written(two, numeral) =~= fragments[0]->Text_0 + numeral(bits));
        assert(written(fragments, numeral) =~= line);
    }
}

/// The fragments of the first lines, written, are those lines.
pub proof fn lemma_listing_written(chunk: ChunkView, count: nat, numeral: Numeral)
    ensures
        written(listing(chunk, count), numeral) == listing_text(chunk, count, numeral),
    decreases count,
{
    if count > 0 {
        let before = (count - 1) as nat;
        lemma_listing_written(chunk, before, numeral);
        lemma_instruction_written(
            chunk,
            chunk.code[count - 1],
            continues_line(chunk.code, count - 1),
            before,
            numeral,
        );
        lemma_written_concat(listing(chunk, before), line_fragments(chunk, count - 1), numeral);
    }
}

/// However the numbers are written, the fragments of a disassembly make the
/// banner and then the line of each instruction, in order.
pub proof fn lemma_disassembly_written(chunk: ChunkView, name: Seq<char>, numeral: Numeral)
    ensures
        written(disassembly(chunk, name), numeral) == disassembly_text(chunk, name, numeral),
{
    let first = seq![FragmentView::Text(banner(name))];
    let none = Seq::<FragmentView>::empty();
    assert(first.drop_last() =~= none);
    assert(written(none, numeral) =~= Seq::<char>::empty());
    assert(written(first, numeral) =~= banner(name));
    lemma_listing_written(chunk, chunk.code.len(), numeral);
    lemma_written_concat(first, listing(chunk, chunk.code.len()), numeral);
}

/// Two disassemblies of one chunk under one name agree, fragment for
/// fragment, and so does their text.
pub proof fn lemma_disassembly_is_repeatable(
    chunk: ChunkView,
    name: Seq<char>,
    first: Seq<Fragment>,
    second: Seq<Fragment>,
    numeral: Numeral,
)
    requires
        views(first) == disassembly(chunk, name),
        views(second) == disassembly(chunk, name),
    ensures
        first.len() == second.len(),
        forall|i: int| 0 <= i < first.len() ==> first[i]@ == second[i]@,
        written(views(first), numeral) == written(views(second), numeral),
{
    assert(views(first).len() == first.len());
    assert(views(second).len() == second.len());
    assert forall|i: int| 0 <= i < first.len() implies first[i]@ == second[i]@ by {
        assert(views(first)[i] == first[i]@);
        assert(views(second)[i] == second[i]@);
    }
}

/// The bar that stands for a repeated line is the field of no line number.
pub proof fn lemma_bar_is_no_number(line: usize)
    ensures
        forall|other: usize| line_field(line, true) != line_field(other, false),
{
    reveal_strlit("   |");
    assert forall|other: usize| line_field(line, true) != line_field(other, false) by {
        lemma_decimal_digits(other as nat);
        assert(line_field(other, false).last() == decimal(other as nat).last());
        assert("   |"@.last() == '|');
    }
}

/// An instruction on the same source line as the one before it shows the bar
/// in its line field, not the number again; one on another line shows its
/// line number.
pub proof fn lemma_line_field_of_next_instruction(chunk: ChunkView, offset: int, numeral: Numeral)
    requires
        0 < offset < chunk.code.len(),
    ensures
        line_text(chunk, offset, numeral) == offset_field(offset as nat) + " "@ + (
        if chunk.code[offset - 1].line == chunk.code[offset].line {
            "   |"@
        } else {
            right_aligned(decimal(chunk.code[offset].line as nat), 4, ' ')
        }) + " "@ + operation_text(chunk, chunk.code[offset].op_code, numeral) + "\n"@,
        "   |"@ != right_aligned(decimal(chunk.code[offset].line as nat), 4, ' '),
{
    lemma_bar_is_no_number(chunk.code[offset].line);
    assert(line_field(chunk.code[offset].line, true) != line_field(
        chunk.code[offset].line,
        false,
    ));
}

/// The first instruction has no instruction before it, and shows its line number.
pub proof fn lemma_line_field_of_first_instruction(chunk: ChunkView, numeral: Numeral)
    requires
        0 < chunk.code.len(),
    ensures
        line_text(chunk, 0, numeral) == offset_field(0) + " "@ + right_aligned(
            decimal(chunk.code[0].line as nat),
            4,
            ' ',
        ) + " "@ + operation_text(chunk, chunk.code[0].op_code, numeral) + "\n"@,
{
}

/// A line begins with the position of its instruction in the chunk, in at
/// least four digits: the field reads as that position, and is the same in
/// any chunk with these instructions, whatever its constants are.
pub proof fn lemma_offset_field_is_position(
    chunk: ChunkView,
    other: ChunkView,
    offset: int,
    numeral: Numeral,
)
    requires
        0 <= offset < chunk.code.len(),
        other.code == chunk.code,
    ensures
        offset_field(offset as nat).len() >= 4,
        decimal_value(offset_field(offset as nat)) == offset,
        line_text(chunk, offset, numeral).take(offset_field(offset as nat).len() as int)
            == offset_field(offset as nat),
        line_text(other, offset, numeral).take(offset_field(offset as nat).len() as int)
            == offset_field(offset as nat),
{
    lemma_zero_padded_reads_back(offset as nat, 4);
    lemma_aligned_len(decimal(offset as nat), 4, '0');
    let field = offset_field(offset as nat);
    assert(line_text(chunk, offset, numeral).take(field.len() as int) =~= field);
    assert(line_text(other, offset, numeral).take(field.len() as int) =~= field);
}

/// The disassembly of a chunk without instructions is the banner alone.
pub proof fn lemma_empty_chunk_disassembly(chunk: ChunkView, name: Seq<char>, numeral: Numeral)
    requires
        chunk.code.len() == 0,
    ensures
        disassembly(chunk, name) == seq![FragmentView::Text(banner(name))],
        disassembly_text(chunk, name, numeral) == banner(name),
{
    assert(disassembly(chunk, name) =~= seq![FragmentView::Text(banner(name))]);
    assert(disassembly_text(chunk, name, numeral) =~= banner(name));
}

/// A load whose index the pool lacks shows the placeholder, and no number.
pub proof fn lemma_missing_constant_shows_placeholder(
    chunk: ChunkView,
    inst: Instruction,
    continue_line: bool,
    offset: nat,
    numeral: Numeral,
)
    requires
        inst.op_code matches OpCode::Constant(idx) && idx >= chunk.constants.len(),
    ensures
        operation_text(chunk, inst.op_code, numeral) == left_aligned("OP_CONSTANT"@, 16) + " "@
            + "Undef"@,
        instruction_fragments(chunk, inst, continue_line, offset) == seq![
            FragmentView::Text(instruction_text(chunk, inst, continue_line, offset, numeral)),
        ],
{
    let head = line_head(inst.line, continue_line, offset);
    let line = instruction_text(chunk, inst, continue_line, offset, numeral);
    assert(head + left_aligned("OP_CONSTANT"@, 16) + " "@ + "Undef"@ + "\n"@ =~= line);
}

proof fn lemma_views_push(fragments: Seq<Fragment>, fragment: Fragment)
    ensures
        views(fragments.push(fragment)) == views(fragments).push(fragment@),
{
    assert(views(fragments.push(fragment)) =~= views(fragments).push(fragment@));
}

struct Disassembler<'a> {
    chunk: &'a Chunk,
}

impl<'a> Disassembler<'a> {
    fn new(chunk: &'a Chunk) -> (disassembler: Self)
        ensures
            disassembler.chunk == chunk,
    {
        Self { chunk }
    }

    /// Adds to `out` the line of each instruction, in order.
    fn disassemble(&self, out: &mut Vec<Fragment>)
        ensures
            views(final(out)@) == views(old(out)@) + listing(self.chunk@, self.chunk@.code.len()),
    {
        let code = self.chunk.get_code();
        let mut last_line: Option<usize> = None;
        let mut offset: usize = 0;
        assert(views(out@) =~= views(old(out)@) + listing(self.chunk@, 0));
        while offset < code.len()
            invariant
                offset <= code.len(),
                code@ == self.chunk@.code,
                last_line == if offset == 0 {
                    None
                } else {
                    Some(code@[offset - 1].line)
                },
                views(out@) == views(old(out)@) + listing(self.chunk@, offset as nat),
            decreases code.len() - offset,
        {
            let inst = &code[offset];
            let continue_line = last_line == Some(inst.line);
            self.disassemble_instruction(inst, continue_line, offset, out);
            last_line = Some(inst.line);
            offset = offset + 1;
            assert(views(out@) =~= views(old(out)@) + listing(self.chunk@, offset as nat));
        }
    }

    /// Adds to `out` the line of `inst`, which stands at `offset`.
    fn disassemble_instruction(
        &self,
        inst: &Instruction,
        continue_line: bool,
        offset: usize,
        out: &mut Vec<Fragment>,
    )
        ensures
            views(final(out)@) == views(old(out)@) + instruction_fragments(
                self.chunk@,
                *inst,
                continue_line,
                offset as nat,
            ),
    {
        let mut head = String::new();
        append_decimal_field(&mut head, offset, 4, true);
        head.append(" ");
        if continue_line {
            head.append("   |");
        } else {
            append_decimal_field(&mut head, inst.line, 4, false);
        }
        head.append(" ");
        assert(head@ =~= line_head(inst.line, continue_line, offset as nat));

        match inst.op_code {
            OpCode::Return => {
                let ghost start = head@;
                head.append("OP_RETURN");
                head.append("\n");
                proof {
                    lemma_views_push(out@, Fragment::Text(head));
                    assert(head@ =~= start + "OP_RETURN"@ + "\n"@);
                }
                out.push(Fragment::Text(head));
                assert(views(out@) =~= views(old(out)@) + instruction_fragments(
                    self.chunk@,
                    *inst,
                    continue_line,
                    offset as nat,
                ));
            },
            OpCode::Constant(idx) => {
                self.constant_instruction(head, "OP_CONSTANT", self.chunk.get_constant(idx), out);
            },
        }
    }

    /// Adds to `out` the rest of a line that began with `head`: the
    /// operation's name and the constant it loads, or the placeholder where
    /// the lookup found none.
    fn constant_instruction(
        &self,
        head: String,
        name: &str,
        value: Option<Value>,
        out: &mut Vec<Fragment>,
    )
        ensures
            views(final(out)@) == views(old(out)@) + constant_fragments(
                head@,
                name@,
                match value {
                    Some(value) => value,
                    None => Value::Undef,
                },
            ),
    {
        let mut front = head;
        append_left_aligned(&mut front, name, 16);
        front.append(" ");
        let ghost start = head@ + left_aligned(name@, 16) + " "@;
        assert(front@ =~= start);
        match value.unwrap_or(Value::Undef) {
            Value::Undef => {
                front.append("Undef");
                front.append("\n");
                proof {
                    lemma_views_push(out@, Fragment::Text(front));
                    assert(front@ =~= start + "Undef"@ + "\n"@);
                }
                out.push(Fragment::Text(front));
                assert(views(out@) =~= views(old(out)@) + constant_fragments(
                    head@,
                    name@,
                    Value::Undef,
                ));
            },
            Value::Number(bits) => {
                front.append("Number(");
                let mut back = String::new();
                back.append(")");
                back.append("\n");
                proof {
                    let first = Fragment::Text(front);
                    let second = Fragment::Number(bits);
                    let third = Fragment::Text(back);
                    lemma_views_push(out@, first);
                    lemma_views_push(out@.push(first), second);
                    lemma_views_push(out@.push(first).push(second), third);
                    assert(front@ =~= start + "Number("@);
                    assert(back@ =~= ")"@ + "\n"@);
                }
                out.push(Fragment::Text(front));
                out.push(Fragment::Number(bits));
                out.push(Fragment::Text(back));
                assert(views(out@) =~= views(old(out)@) + constant_fragments(
                    head@,
                    name@,
                    Value::Number(bits),
                ));
            },
        }
    }
}

/// Disassembles `chunk` under the name `name`: a banner, then one line for
/// each instruction, in order. A load whose index the pool lacks shows the
/// placeholder `Undef`. The chunk is left as it is.
///
/// The result is text but for the numbers: however they are written, the
/// fragments make the text that `disassembly_text` says.
pub fn disassemble_chunk(chunk: &Chunk, name: &str) -> (out: Vec<Fragment>)
    ensures
        views(out@) == disassembly(chunk@, name@),
        forall|numeral: Numeral| #[trigger]
            written(views(out@), numeral) == disassembly_text(chunk@, name@, numeral),
{
    proof {
        assert forall|numeral: Numeral| #[trigger]
            written(disassembly(chunk@, name@), numeral) == disassembly_text(
                chunk@,
                name@,
                numeral,
            ) by {
            lemma_disassembly_written(chunk@, name@, numeral);
        }
    }
    let mut first = String::new();
    first.append("== ");
    first.append(name);
    first.append(" ==\n");
    assert(first@ =~= banner(name@));
    let mut out: Vec<Fragment> = Vec::new();
    proof {
        lemma_views_push(out@, Fragment::Text(first));
    }
    out.push(Fragment::Text(first));
    assert(views(out@) =~= seq![FragmentView::Text(banner(name@))]);
    Disassembler::new(chunk).disassemble(&mut out);
    out
}

} // verus!
