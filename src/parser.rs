use crate::instructions::{
    c_text, comp_of, comp_text, destination_of, destination_text, jump_of, jump_text, Comp,
    Destination, Instruction, Jump, A, C,
};
use crate::symbol_table::{bind_operand, symbol_lookup, SymbolTable};
use crate::text::u16_literal;
use crate::text::{has_char, not_space, strip_spaces, trim, trim_str};
use vstd::prelude::*;
use vstd::string::StringExecFns;

verus! {

/// The largest number of source lines, and of instruction slots, in a program.
pub const MAX_INSTRUCTIONS: usize = 32767;

/// The number of memory words: general memory, the screen buffer and the keyboard register.
pub const MAX_RAM: usize = 24577;

/// A line that cannot be assembled: its index among the cleaned lines (blank and comment lines
/// removed), and its cleaned text.
#[derive(Debug)]
pub enum LineParsingError {
    InvalidLine(u16, String),
}

/// The texts of a sequence of strings.
pub open spec fn texts(lines: Seq<String>) -> Seq<Seq<char>> {
    lines.map_values(|s: String| s@)
}

/// Whether a comment marker `//` starts at position `i` of `s`.
pub open spec fn comment_at(s: Seq<char>, i: int) -> bool {
    0 <= i && i + 1 < s.len() && s[i] == '/' && s[i + 1] == '/'
}

/// The first position at or after `i` where a comment marker starts.
pub open spec fn comment_from(s: Seq<char>, i: nat) -> Option<nat>
    decreases s.len() - i,
{
    if i + 1 >= s.len() {
        None
    } else if comment_at(s, i as int) {
        Some(i)
    } else {
        comment_from(s, i + 1)
    }
}

/// A source line with its comment and its spaces taken out, or nothing for a line that is empty
/// or a comment from its start.
pub open spec fn clean_line(s: Seq<char>) -> Option<Seq<char>> {
    if s.len() == 0 || comment_at(s, 0) {
        None
    } else {
        match comment_from(s, 0) {
            Some(k) => Some(trim(s.take(k as int)).filter(not_space())),
            None => Some(s.filter(not_space())),
        }
    }
}

/// The cleaned lines of a program: empty and comment lines dropped, the others cleaned, in order.
pub open spec fn clean_lines(lines: Seq<Seq<char>>) -> Seq<Seq<char>>
    decreases lines.len(),
{
    if lines.len() == 0 {
        Seq::empty()
    } else {
        let p = clean_lines(lines.drop_last());
        match clean_line(lines.last()) {
            Some(c) => p.push(c),
            None => p,
        }
    }
}

/// Whether a cleaned line declares a label: `(name)`.
pub open spec fn is_label(s: Seq<char>) -> bool {
    s.len() >= 2 && s[0] == '(' && s.last() == ')'
}

/// The name that a label line declares.
pub open spec fn label_name(s: Seq<char>) -> Seq<char> {
    s.subrange(1, s.len() - 1)
}

/// Whether a cleaned line is an address instruction: `@operand`.
pub open spec fn is_address(s: Seq<char>) -> bool {
    s.len() > 0 && s[0] == '@'
}

/// The number of label lines among `lines`.
pub open spec fn count_labels(lines: Seq<Seq<char>>) -> nat
    decreases lines.len(),
{
    if lines.len() == 0 {
        0
    } else {
        count_labels(lines.drop_last()) + if is_label(lines.last()) {
            1nat
        } else {
            0nat
        }
    }
}

/// The instruction slot of the line at index `i`: label lines take no slot, so each line moves
/// down by the number of labels before it.
pub open spec fn slot_of(lines: Seq<Seq<char>>, i: int) -> int {
    i - count_labels(lines.take(i))
}

/// `m` with every label of `lines` bound to the slot of the line after it; a later declaration
/// of a name replaces an earlier one.
pub open spec fn bind_labels(m: Map<Seq<char>, u16>, lines: Seq<Seq<char>>) -> Map<Seq<char>, u16>
    decreases lines.len(),
{
    if lines.len() == 0 {
        m
    } else {
        let p = bind_labels(m, lines.drop_last());
        let l = lines.last();
        if is_label(l) {
            p.insert(label_name(l), slot_of(lines, lines.len() - 1) as u16)
        } else {
            p
        }
    }
}

/// The table and the variable cursor after the operands of the address instructions of `lines`
/// are seen in order.
pub open spec fn bind_variables(m: Map<Seq<char>, u16>, cursor: u16, lines: Seq<Seq<char>>) -> (Map<
    Seq<char>,
    u16,
>, u16)
    decreases lines.len(),
{
    if lines.len() == 0 {
        (m, cursor)
    } else {
        let (p, c) = bind_variables(m, cursor, lines.drop_last());
        let l = lines.last();
        if is_address(l) {
            bind_operand(p, c, l.skip(1))
        } else {
            (p, c)
        }
    }
}

/// The table and the cursor after the label pass and then the variable pass over cleaned lines.
pub open spec fn resolve_symbols(m: Map<Seq<char>, u16>, cursor: u16, lines: Seq<Seq<char>>) -> (Map<
    Seq<char>,
    u16,
>, u16) {
    bind_variables(bind_labels(m, lines), cursor, lines)
}

/// Whether a character separates the fields of a compute instruction.
pub open spec fn is_separator(c: char) -> bool {
    c == ' ' || c == ',' || c == '=' || c == ';'
}

/// The pieces of `s` between separators, empty pieces included: `n` separators give `n + 1`
/// pieces.
pub open spec fn split_fields(s: Seq<char>) -> Seq<Seq<char>>
    decreases s.len(),
{
    if s.len() == 0 {
        seq![Seq::<char>::empty()]
    } else {
        let p = split_fields(s.drop_last());
        if is_separator(s.last()) {
            p.push(Seq::<char>::empty())
        } else {
            p.update(p.len() - 1, p.last().push(s.last()))
        }
    }
}

/// A compute instruction from the mnemonics of its parts, if all three are valid.
pub open spec fn build_c(d: Seq<char>, c: Seq<char>, j: Seq<char>) -> Option<Instruction> {
    match (destination_of(d), comp_of(c), jump_of(j)) {
        (Some(dd), Some(cc), Some(jj)) => Some(Instruction::C(C { dest: dd, comp: cc, jump: jj })),
        _ => None,
    }
}

/// The instruction that a cleaned line, neither empty nor a label, assembles to under the table
/// `m`. An address operand is replaced by its binding, which must fit in 15 bits. A compute
/// instruction must split into two fields: `comp;jump` when the line holds a `;`, and
/// `dest=comp` otherwise; a line with both a destination and a jump gives three fields, and is
/// rejected.
pub open spec fn decode_line(l: Seq<char>, m: Map<Seq<char>, u16>) -> Option<Instruction> {
    if is_address(l) {
        match symbol_lookup(m, l.skip(1)) {
            Some(v) => if v <= i16::MAX {
                Some(Instruction::A(A { dest: v as i16 }))
            } else {
                None
            },
            None => None,
        }
    } else {
        let t = split_fields(l);
        if t.len() == 2 {
            if l.contains(';') {
                build_c(Seq::empty(), t[0], t[1])
            } else {
                build_c(t[0], t[1], Seq::empty())
            }
        } else {
            None
        }
    }
}

/// The instructions that cleaned lines assemble to, in slot order, or the index of the first
/// line that does not assemble. A blank cleaned line leaves its slot empty; a label takes none.
pub open spec fn assemble(lines: Seq<Seq<char>>, m: Map<Seq<char>, u16>) -> Result<
    Seq<Instruction>,
    int,
>
    decreases lines.len(),
{
    if lines.len() == 0 {
        Ok(Seq::empty())
    } else {
        match assemble(lines.drop_last(), m) {
            Err(i) => Err(i),
            Ok(p) => {
                let l = lines.last();
                if l.len() == 0 {
                    Ok(p.push(Instruction::Empty))
                } else if is_label(l) {
                    Ok(p)
                } else {
                    match decode_line(l, m) {
                        Some(ins) => Ok(p.push(ins)),
                        None => Err(lines.len() - 1),
                    }
                }
            },
        }
    }
}

/// `s` padded with empty slots up to the full program size.
pub open spec fn pad_program(s: Seq<Instruction>) -> Seq<Instruction> {
    s + Seq::new((MAX_INSTRUCTIONS - s.len()) as nat, |i: int| Instruction::Empty)
}

/// Splits a compute instruction into its fields.
///
/// Relies on `regex::Regex::new`, which compiles the fixed class `[ ,=;]` of four characters
/// (so it cannot fail), and on `regex::Regex::split`, which yields the pieces of the haystack
/// between matches, an empty piece between two adjacent separators and at either end.
#[verifier::external_body]
fn split_line(line: &str) -> (r: Vec<String>)
    ensures
        texts(r@) == split_fields(line@),
{
    let re = regex::Regex::new(r"[ ,=;]").unwrap();
    re.split(line).map(|t| t.to_string()).collect()
}

/// The position of the first comment marker in `s`, if any.
fn find_comment(s: &str) -> (r: Option<usize>)
    ensures
        r matches Some(k) ==> comment_from(s@, 0) == Some(k as nat) && k + 1 < s@.len(),
        r is None ==> comment_from(s@, 0) is None,
{
    let n = s.unicode_len();
    let mut i: usize = 0;
    while n > 0 && i < n - 1
        invariant
            n == s@.len(),
            i <= n,
            comment_from(s@, 0) == comment_from(s@, i as nat),
        decreases n - i,
    {
        if s.get_char(i) == '/' && s.get_char(i + 1) == '/' {
            return Some(i);
        }
        i += 1;
    }
    None
}

/// One source line cleaned, or nothing for a line that the assembler drops.
fn clean_one(line: &str) -> (r: Option<String>)
    ensures
        match clean_line(line@) {
            Some(c) => r matches Some(x) && x@ == c,
            None => r is None,
        },
{
    let n = line.unicode_len();
    if n == 0 {
        return None;
    }
    if n >= 2 && line.get_char(0) == '/' && line.get_char(1) == '/' {
        return None;
    }
    match find_comment(line) {
        Some(k) => {
            let head = line.substring_char(0, k);
            assert(head@ =~= line@.take(k as int));
            let t = trim_str(head);
            Some(strip_spaces(t))
        },
        None => Some(strip_spaces(line)),
    }
}

/// The cleaned lines of a program: blank and comment lines are dropped, so the lines after them
/// move up; comments are cut off and spaces removed.
fn clear_whitespace(lines: &Vec<String>) -> (r: Vec<String>)
    ensures
        texts(r@) == clean_lines(texts(lines@)),
        r@.len() <= lines@.len(),
{
    let mut r: Vec<String> = Vec::new();
    let mut i: usize = 0;
    while i < lines.len()
        invariant
            i <= lines@.len(),
            r@.len() <= i,
            texts(r@) == clean_lines(texts(lines@).take(i as int)),
        decreases lines@.len() - i,
    {
        let ghost t = texts(lines@).take(i + 1);
        proof {
            assert(t.drop_last() =~= texts(lines@).take(i as int));
            assert(t.last() == lines@[i as int]@);
        }
        match clean_one(lines[i].as_str()) {
            Some(c) => {
                let ghost r0 = r@;
                r.push(c);
                proof {
                    assert(texts(r@) =~= texts(r0).push(r@.last()@));
                }
            },
            None => {},
        }
        i += 1;
    }
    proof {
        assert(texts(lines@).take(lines@.len() as int) =~= texts(lines@));
    }
    r
}

/// Whether a cleaned line declares a label.
fn line_is_label(s: &str) -> (r: bool)
    ensures
        r == is_label(s@),
{
    let n = s.unicode_len();
    n >= 2 && s.get_char(0) == '(' && s.get_char(n - 1) == ')'
}

/// Whether a cleaned line is an address instruction.
fn line_is_address(s: &str) -> (r: bool)
    ensures
        r == is_address(s@),
{
    s.unicode_len() > 0 && s.get_char(0) == '@'
}

/// The label pass, then the variable pass, over the cleaned lines of a program.
fn labels_and_variables(lines: &Vec<String>, address_table: &mut SymbolTable)
    requires
        lines@.len() <= MAX_INSTRUCTIONS,
        old(address_table).current_variable + lines@.len() <= u16::MAX,
    ensures
        (final(address_table)@, final(address_table).current_variable) == resolve_symbols(
            old(address_table)@,
            old(address_table).current_variable,
            texts(lines@),
        ),
{
    let ghost all = texts(lines@);
    let ghost m0 = address_table@;
    let c0 = address_table.current_variable;
    let mut labels_count: u16 = 0;
    let mut i: usize = 0;
    while i < lines.len()
        invariant
            all == texts(lines@),
            lines@.len() <= MAX_INSTRUCTIONS,
            i <= lines@.len(),
            address_table@ == bind_labels(m0, all.take(i as int)),
            address_table.current_variable == c0,
            labels_count as nat == count_labels(all.take(i as int)),
            labels_count <= i,
        decreases lines@.len() - i,
    {
        let line = lines[i].as_str();
        let ghost t = all.take(i + 1);
        proof {
            assert(t.drop_last() =~= all.take(i as int));
            assert(t.last() == line@);
        }
        if line_is_label(line) {
            let n = line.unicode_len();
            let name = line.substring_char(1, n - 1).to_owned();
            address_table.insert(name, (i - labels_count as usize) as u16);
            labels_count += 1;
        }
        i += 1;
    }
    proof {
        assert(all.take(lines@.len() as int) =~= all);
    }
    let ghost m1 = address_table@;
    let mut i: usize = 0;
    while i < lines.len()
        invariant
            all == texts(lines@),
            m1 == bind_labels(m0, all),
            c0 + lines@.len() <= u16::MAX,
            i <= lines@.len(),
            (address_table@, address_table.current_variable) == bind_variables(
                m1,
                c0,
                all.take(i as int),
            ),
            address_table.current_variable <= c0 + i,
        decreases lines@.len() - i,
    {
        let line = lines[i].as_str();
        let ghost t = all.take(i + 1);
        proof {
            assert(t.drop_last() =~= all.take(i as int));
            assert(t.last() == line@);
        }
        if line_is_address(line) {
            let n = line.unicode_len();
            let name = line.substring_char(1, n);
            assert(name@ =~= line@.skip(1));
            address_table.insert_if_absent(name);
        }
        i += 1;
    }
    proof {
        assert(all.take(lines@.len() as int) =~= all);
    }
}

/// The instruction that a cleaned line, neither empty nor a label, assembles to.
fn decode(line: &str, address_table: &SymbolTable) -> (r: Option<Instruction>)
    ensures
        r == decode_line(line@, address_table@),
{
    if line_is_address(line) {
        let n = line.unicode_len();
        let name = line.substring_char(1, n);
        assert(name@ =~= line@.skip(1));
        match address_table.lookup(name) {
            Some(v) => if v <= 32767 {
                Some(Instruction::A(A { dest: v as i16 }))
            } else {
                None
            },
            None => None,
        }
    } else {
        let fields = split_line(line);
        if fields.len() != 2 {
            return None;
        }
        let f0 = fields[0].as_str();
        let f1 = fields[1].as_str();
        let (d, c, j) = if has_char(line, ';') {
            (Destination::new(""), Comp::new(f0), Jump::new(f1))
        } else {
            (Destination::new(f0), Comp::new(f1), Jump::new(""))
        };
        proof {
            reveal_strlit("");
            assert(""@ =~= Seq::<char>::empty());
        }
        match (d, c, j) {
            (Some(dd), Some(cc), Some(jj)) => Some(Instruction::C(C { dest: dd, comp: cc, jump: jj })),
            _ => None,
        }
    }
}

proof fn lemma_assemble_error_stays(lines: Seq<Seq<char>>, m: Map<Seq<char>, u16>, k: int)
    requires
        0 <= k <= lines.len(),
        assemble(lines.take(k), m) is Err,
    ensures
        assemble(lines, m) == assemble(lines.take(k), m),
    decreases lines.len(),
{
    if k == lines.len() {
        assert(lines.take(k) =~= lines);
    } else {
        assert(lines.drop_last().take(k) =~= lines.take(k));
        lemma_assemble_error_stays(lines.drop_last(), m, k);
    }
}

/// Assembles the source lines of a program into the instruction slots of the machine, binding
/// its labels and variables in `address_table` on the way.
///
/// Blank and comment lines are dropped first, and the lines after them move up: the line index
/// of an error counts cleaned lines. Then every label is bound to the slot of the instruction
/// after it, and every new operand of an address instruction to its own value when it is a
/// number, and otherwise to the next free variable address. Last, each line is assembled into
/// its slot; the slots after the program are empty. The first line that does not assemble
/// fails the whole parse; the table keeps the bindings made by then.
pub fn parse(lines: Vec<String>, address_table: &mut SymbolTable) -> (r: Result<
    Vec<Instruction>,
    LineParsingError,
>)
    requires
        lines@.len() <= MAX_INSTRUCTIONS,
        old(address_table).current_variable + lines@.len() <= u16::MAX,
    ensures
        (final(address_table)@, final(address_table).current_variable) == resolve_symbols(
            old(address_table)@,
            old(address_table).current_variable,
            clean_lines(texts(lines@)),
        ),
        match r {
            Ok(v) => assemble(clean_lines(texts(lines@)), final(address_table)@) matches Ok(p)
                && v@ == pad_program(p),
            Err(LineParsingError::InvalidLine(n, text)) => assemble(
                clean_lines(texts(lines@)),
                final(address_table)@,
            ) == Err::<Seq<Instruction>, int>(n as int) && n < clean_lines(texts(lines@)).len()
                && text@ == clean_lines(texts(lines@))[n as int],
        },
{
    let cleaned = clear_whitespace(&lines);
    let ghost all = texts(cleaned@);
    labels_and_variables(&cleaned, address_table);
    let ghost m = address_table@;
    let ghost c1 = address_table.current_variable;
    let mut out: Vec<Instruction> = Vec::new();
    let mut i: usize = 0;
    while i < cleaned.len()
        invariant
            all == texts(cleaned@),
            all == clean_lines(texts(lines@)),
            (m, c1) == resolve_symbols(
                old(address_table)@,
                old(address_table).current_variable,
                all,
            ),
            m == address_table@,
            c1 == address_table.current_variable,
            cleaned@.len() <= MAX_INSTRUCTIONS,
            i <= cleaned@.len(),
            out@.len() <= i,
            assemble(all.take(i as int), m) == Ok::<Seq<Instruction>, int>(out@),
        decreases cleaned@.len() - i,
    {
        let line = cleaned[i].as_str();
        let ghost t = all.take(i + 1);
        proof {
            assert(t.drop_last() =~= all.take(i as int));
            assert(t.last() == line@);
        }
        if line.unicode_len() == 0 {
            out.push(Instruction::Empty);
        } else if line_is_label(line) {
        } else {
            match decode(line, address_table) {
                Some(ins) => {
                    out.push(ins);
                },
                None => {
                    proof {
                        lemma_assemble_error_stays(all, m, i + 1);
                    }
                    return Err(LineParsingError::InvalidLine(i as u16, cleaned[i].clone()));
                },
            }
        }
        i += 1;
    }
    proof {
        assert(all.take(cleaned@.len() as int) =~= all);
    }
    let ghost p = out@;
    while out.len() < MAX_INSTRUCTIONS
        invariant
            p.len() <= out@.len() <= MAX_INSTRUCTIONS,
            out@ =~= p + Seq::new((out@.len() - p.len()) as nat, |k: int| Instruction::Empty),
        decreases MAX_INSTRUCTIONS - out@.len(),
    {
        out.push(Instruction::Empty);
    }
    Ok(out)
}

/// Every destination mnemonic names its own destination and holds neither a field separator nor `@`.
pub proof fn lemma_destination_mnemonics(x: Destination)
    ensures
        destination_of(destination_text(x)) == Some(x),
        forall|i: int|
            0 <= i < destination_text(x).len() ==> !is_separator(#[trigger] destination_text(x)[i])
                && destination_text(x)[i] != '@',
{
    reveal_strlit("A");
    assert("A"@ =~= seq!['A']);
    reveal_strlit("AD");
    assert("AD"@ =~= seq!['A', 'D']);
    reveal_strlit("AM");
    assert("AM"@ =~= seq!['A', 'M']);
    reveal_strlit("AMD");
    assert("AMD"@ =~= seq!['A', 'M', 'D']);
    reveal_strlit("D");
    assert("D"@ =~= seq!['D']);
    reveal_strlit("M");
    assert("M"@ =~= seq!['M']);
    reveal_strlit("MD");
    assert("MD"@ =~= seq!['M', 'D']);
    match x {
        Destination::Null => {
            assert(destination_of(Seq::<char>::empty()) == Some(Destination::Null));
        },
        Destination::A => {
            assert(destination_of(seq!['A']) == Some(Destination::A));
        },
        Destination::M => {
            assert(seq!['A'][0] != seq!['M'][0]);
            assert(destination_of(seq!['M']) == Some(Destination::M));
        },
        Destination::D => {
            assert(seq!['A'][0] != seq!['D'][0]);
            assert(seq!['M'][0] != seq!['D'][0]);
            assert(destination_of(seq!['D']) == Some(Destination::D));
        },
        Destination::MD => {
            assert(destination_of(seq!['M', 'D']) == Some(Destination::MD));
        },
        Destination::AM => {
            assert(seq!['M', 'D'][0] != seq!['A', 'M'][0]);
            assert(destination_of(seq!['A', 'M']) == Some(Destination::AM));
        },
        Destination::AD => {
            assert(seq!['M', 'D'][0] != seq!['A', 'D'][0]);
            assert(seq!['A', 'M'][1] != seq!['A', 'D'][1]);
            assert(destination_of(seq!['A', 'D']) == Some(Destination::AD));
        },
        Destination::AMD => {
            assert(destination_of(seq!['A', 'M', 'D']) == Some(Destination::AMD));
        },
    }
}

/// Every jump mnemonic names its own jump and holds neither a field separator nor `@`.
pub proof fn lemma_jump_mnemonics(x: Jump)
    ensures
        jump_of(jump_text(x)) == Some(x),
        forall|i: int|
            0 <= i < jump_text(x).len() ==> !is_separator(#[trigger] jump_text(x)[i])
                && jump_text(x)[i] != '@',
{
    reveal_strlit("JEQ");
    assert("JEQ"@ =~= seq!['J', 'E', 'Q']);
    reveal_strlit("JGE");
    assert("JGE"@ =~= seq!['J', 'G', 'E']);
    reveal_strlit("JGT");
    assert("JGT"@ =~= seq!['J', 'G', 'T']);
    reveal_strlit("JLE");
    assert("JLE"@ =~= seq!['J', 'L', 'E']);
    reveal_strlit("JLT");
    assert("JLT"@ =~= seq!['J', 'L', 'T']);
    reveal_strlit("JMP");
    assert("JMP"@ =~= seq!['J', 'M', 'P']);
    reveal_strlit("JNE");
    assert("JNE"@ =~= seq!['J', 'N', 'E']);
}

/// Every comp mnemonic names its own comp and holds neither a field separator nor `@`.
pub proof fn lemma_comp_mnemonics(x: Comp)
    ensures
        comp_of(comp_text(x)) == Some(x),
        comp_text(x).len() > 0,
        forall|i: int|
            0 <= i < comp_text(x).len() ==> !is_separator(#[trigger] comp_text(x)[i])
                && comp_text(x)[i] != '@',
{
    reveal_strlit("!A");
    assert("!A"@ =~= seq!['!', 'A']);
    reveal_strlit("!D");
    assert("!D"@ =~= seq!['!', 'D']);
    reveal_strlit("!M");
    assert("!M"@ =~= seq!['!', 'M']);
    reveal_strlit("-1");
    assert("-1"@ =~= seq!['-', '1']);
    reveal_strlit("-A");
    assert("-A"@ =~= seq!['-', 'A']);
    reveal_strlit("-D");
    assert("-D"@ =~= seq!['-', 'D']);
    reveal_strlit("-M");
    assert("-M"@ =~= seq!['-', 'M']);
    reveal_strlit("0");
    assert("0"@ =~= seq!['0']);
    reveal_strlit("1");
    assert("1"@ =~= seq!['1']);
    reveal_strlit("A");
    assert("A"@ =~= seq!['A']);
    reveal_strlit("A+1");
    assert("A+1"@ =~= seq!['A', '+', '1']);
    reveal_strlit("A-1");
    assert("A-1"@ =~= seq!['A', '-', '1']);
    reveal_strlit("A-D");
    assert("A-D"@ =~= seq!['A', '-', 'D']);
    reveal_strlit("A<<");
    assert("A<<"@ =~= seq!['A', '<', '<']);
    reveal_strlit("A>>");
    assert("A>>"@ =~= seq!['A', '>', '>']);
    reveal_strlit("D");
    assert("D"@ =~= seq!['D']);
    reveal_strlit("D&A");
    assert("D&A"@ =~= seq!['D', '&', 'A']);
    reveal_strlit("D&M");
    assert("D&M"@ =~= seq!['D', '&', 'M']);
    reveal_strlit("D+1");
    assert("D+1"@ =~= seq!['D', '+', '1']);
    reveal_strlit("D+A");
    assert("D+A"@ =~= seq!['D', '+', 'A']);
    reveal_strlit("D+M");
    assert("D+M"@ =~= seq!['D', '+', 'M']);
    reveal_strlit("D-1");
    assert("D-1"@ =~= seq!['D', '-', '1']);
    reveal_strlit("D-A");
    assert("D-A"@ =~= seq!['D', '-', 'A']);
    reveal_strlit("D-M");
    assert("D-M"@ =~= seq!['D', '-', 'M']);
    reveal_strlit("D<<");
    assert("D<<"@ =~= seq!['D', '<', '<']);
    reveal_strlit("D>>");
    assert("D>>"@ =~= seq!['D', '>', '>']);
    reveal_strlit("D|A");
    assert("D|A"@ =~= seq!['D', '|', 'A']);
    reveal_strlit("D|M");
    assert("D|M"@ =~= seq!['D', '|', 'M']);
    reveal_strlit("M");
    assert("M"@ =~= seq!['M']);
    reveal_strlit("M+1");
    assert("M+1"@ =~= seq!['M', '+', '1']);
    reveal_strlit("M-1");
    assert("M-1"@ =~= seq!['M', '-', '1']);
    reveal_strlit("M-D");
    assert("M-D"@ =~= seq!['M', '-', 'D']);
    reveal_strlit("M<<");
    assert("M<<"@ =~= seq!['M', '<', '<']);
    reveal_strlit("M>>");
    assert("M>>"@ =~= seq!['M', '>', '>']);
    match x {
        Comp::Zero => {
            assert(comp_of(seq!['0']) == Some(Comp::Zero));
        },
        Comp::One => {
            assert(seq!['0'][0] != seq!['1'][0]);
            assert(comp_of(seq!['1']) == Some(Comp::One));
        },
        Comp::MinusOne => {
            assert(comp_of(seq!['-', '1']) == Some(Comp::MinusOne));
        },
        Comp::D => {
            assert(seq!['0'][0] != seq!['D'][0]);
            assert(seq!['1'][0] != seq!['D'][0]);
            assert(comp_of(seq!['D']) == Some(Comp::D));
        },
        Comp::A => {
            assert(seq!['0'][0] != seq!['A'][0]);
            assert(seq!['1'][0] != seq!['A'][0]);
            assert(seq!['D'][0] != seq!['A'][0]);
            assert(comp_of(seq!['A']) == Some(Comp::A));
        },
        Comp::NotD => {
            assert(seq!['-', '1'][0] != seq!['!', 'D'][0]);
            assert(comp_of(seq!['!', 'D']) == Some(Comp::NotD));
        },
        Comp::NotA => {
            assert(seq!['-', '1'][0] != seq!['!', 'A'][0]);
            assert(seq!['!', 'D'][1] != seq!['!', 'A'][1]);
            assert(comp_of(seq!['!', 'A']) == Some(Comp::NotA));
        },
        Comp::MinusD => {
            assert(seq!['-', '1'][1] != seq!['-', 'D'][1]);
            assert(seq!['!', 'D'][0] != seq!['-', 'D'][0]);
            assert(seq!['!', 'A'][0] != seq!['-', 'D'][0]);
            assert(comp_of(seq!['-', 'D']) == Some(Comp::MinusD));
        },
        Comp::MinusA => {
            assert(seq!['-', '1'][1] != seq!['-', 'A'][1]);
            assert(seq!['!', 'D'][0] != seq!['-', 'A'][0]);
            assert(seq!['!', 'A'][0] != seq!['-', 'A'][0]);
            assert(seq!['-', 'D'][1] != seq!['-', 'A'][1]);
            assert(comp_of(seq!['-', 'A']) == Some(Comp::MinusA));
        },
        Comp::DPlusOne => {
            assert(comp_of(seq!['D', '+', '1']) == Some(Comp::DPlusOne));
        },
        Comp::APlusOne => {
            assert(seq!['D', '+', '1'][0] != seq!['A', '+', '1'][0]);
            assert(comp_of(seq!['A', '+', '1']) == Some(Comp::APlusOne));
        },
        Comp::DMinusOne => {
            assert(seq!['D', '+', '1'][1] != seq!['D', '-', '1'][1]);
            assert(seq!['A', '+', '1'][0] != seq!['D', '-', '1'][0]);
            assert(comp_of(seq!['D', '-', '1']) == Some(Comp::DMinusOne));
        },
        Comp::AMinusOne => {
            assert(seq!['D', '+', '1'][0] != seq!['A', '-', '1'][0]);
            assert(seq!['A', '+', '1'][1] != seq!['A', '-', '1'][1]);
            assert(seq!['D', '-', '1'][0] != seq!['A', '-', '1'][0]);
            assert(comp_of(seq!['A', '-', '1']) == Some(Comp::AMinusOne));
        },
        Comp::DPlusA => {
            assert(seq!['D', '+', '1'][2] != seq!['D', '+', 'A'][2]);
            assert(seq!['A', '+', '1'][0] != seq!['D', '+', 'A'][0]);
            assert(seq!['D', '-', '1'][1] != seq!['D', '+', 'A'][1]);
            assert(seq!['A', '-', '1'][0] != seq!['D', '+', 'A'][0]);
            assert(comp_of(seq!['D', '+', 'A']) == Some(Comp::DPlusA));
        },
        Comp::DMinusA => {
            assert(seq!['D', '+', '1'][1] != seq!['D', '-', 'A'][1]);
            assert(seq!['A', '+', '1'][0] != seq!['D', '-', 'A'][0]);
            assert(seq!['D', '-', '1'][2] != seq!['D', '-', 'A'][2]);
            assert(seq!['A', '-', '1'][0] != seq!['D', '-', 'A'][0]);
            assert(seq!['D', '+', 'A'][1] != seq!['D', '-', 'A'][1]);
            assert(comp_of(seq!['D', '-', 'A']) == Some(Comp::DMinusA));
        },
        Comp::AMinusD => {
            assert(seq!['D', '+', '1'][0] != seq!['A', '-', 'D'][0]);
            assert(seq!['A', '+', '1'][1] != seq!['A', '-', 'D'][1]);
            assert(seq!['D', '-', '1'][0] != seq!['A', '-', 'D'][0]);
            assert(seq!['A', '-', '1'][2] != seq!['A', '-', 'D'][2]);
            assert(seq!['D', '+', 'A'][0] != seq!['A', '-', 'D'][0]);
            assert(seq!['D', '-', 'A'][0] != seq!['A', '-', 'D'][0]);
            assert(comp_of(seq!['A', '-', 'D']) == Some(Comp::AMinusD));
        },
        Comp::DAndA => {
            assert(seq!['D', '+', '1'][1] != seq!['D', '&', 'A'][1]);
            assert(seq!['A', '+', '1'][0] != seq!['D', '&', 'A'][0]);
            assert(seq!['D', '-', '1'][1] != seq!['D', '&', 'A'][1]);
            assert(seq!['A', '-', '1'][0] != seq!['D', '&', 'A'][0]);
            assert(seq!['D', '+', 'A'][1] != seq!['D', '&', 'A'][1]);
            assert(seq!['D', '-', 'A'][1] != seq!['D', '&', 'A'][1]);
            assert(seq!['A', '-', 'D'][0] != seq!['D', '&', 'A'][0]);
            assert(comp_of(seq!['D', '&', 'A']) == Some(Comp::DAndA));
        },
        Comp::DOrA => {
            assert(seq!['D', '+', '1'][1] != seq!['D', '|', 'A'][1]);
            assert(seq!['A', '+', '1'][0] != seq!['D', '|', 'A'][0]);
            assert(seq!['D', '-', '1'][1] != seq!['D', '|', 'A'][1]);
            assert(seq!['A', '-', '1'][0] != seq!['D', '|', 'A'][0]);
            assert(seq!['D', '+', 'A'][1] != seq!['D', '|', 'A'][1]);
            assert(seq!['D', '-', 'A'][1] != seq!['D', '|', 'A'][1]);
            assert(seq!['A', '-', 'D'][0] != seq!['D', '|', 'A'][0]);
            assert(seq!['D', '&', 'A'][1] != seq!['D', '|', 'A'][1]);
            assert(comp_of(seq!['D', '|', 'A']) == Some(Comp::DOrA));
        },
        Comp::M => {
            assert(seq!['0'][0] != seq!['M'][0]);
            assert(seq!['1'][0] != seq!['M'][0]);
            assert(seq!['D'][0] != seq!['M'][0]);
            assert(seq!['A'][0] != seq!['M'][0]);
            assert(comp_of(seq!['M']) == Some(Comp::M));
        },
        Comp::NotM => {
            assert(seq!['-', '1'][0] != seq!['!', 'M'][0]);
            assert(seq!['!', 'D'][1] != seq!['!', 'M'][1]);
            assert(seq!['!', 'A'][1] != seq!['!', 'M'][1]);
            assert(seq!['-', 'D'][0] != seq!['!', 'M'][0]);
            assert(seq!['-', 'A'][0] != seq!['!', 'M'][0]);
            assert(comp_of(seq!['!', 'M']) == Some(Comp::NotM));
        },
        Comp::MinusM => {
            assert(seq!['-', '1'][1] != seq!['-', 'M'][1]);
            assert(seq!['!', 'D'][0] != seq!['-', 'M'][0]);
            assert(seq!['!', 'A'][0] != seq!['-', 'M'][0]);
            assert(seq!['-', 'D'][1] != seq!['-', 'M'][1]);
            assert(seq!['-', 'A'][1] != seq!['-', 'M'][1]);
            assert(seq!['!', 'M'][0] != seq!['-', 'M'][0]);
            assert(comp_of(seq!['-', 'M']) == Some(Comp::MinusM));
        },
        Comp::MPlusOne => {
            assert(seq!['D', '+', '1'][0] != seq!['M', '+', '1'][0]);
            assert(seq!['A', '+', '1'][0] != seq!['M', '+', '1'][0]);
            assert(seq!['D', '-', '1'][0] != seq!['M', '+', '1'][0]);
            assert(seq!['A', '-', '1'][0] != seq!['M', '+', '1'][0]);
            assert(seq!['D', '+', 'A'][0] != seq!['M', '+', '1'][0]);
            assert(seq!['D', '-', 'A'][0] != seq!['M', '+', '1'][0]);
            assert(seq!['A', '-', 'D'][0] != seq!['M', '+', '1'][0]);
            assert(seq!['D', '&', 'A'][0] != seq!['M', '+', '1'][0]);
            assert(seq!['D', '|', 'A'][0] != seq!['M', '+', '1'][0]);
            assert(comp_of(seq!['M', '+', '1']) == Some(Comp::MPlusOne));
        },
        Comp::MMinusOne => {
            assert(seq!['D', '+', '1'][0] != seq!['M', '-', '1'][0]);
            assert(seq!['A', '+', '1'][0] != seq!['M', '-', '1'][0]);
            assert(seq!['D', '-', '1'][0] != seq!['M', '-', '1'][0]);
            assert(seq!['A', '-', '1'][0] != seq!['M', '-', '1'][0]);
            assert(seq!['D', '+', 'A'][0] != seq!['M', '-', '1'][0]);
            assert(seq!['D', '-', 'A'][0] != seq!['M', '-', '1'][0]);
            assert(seq!['A', '-', 'D'][0] != seq!['M', '-', '1'][0]);
            assert(seq!['D', '&', 'A'][0] != seq!['M', '-', '1'][0]);
            assert(seq!['D', '|', 'A'][0] != seq!['M', '-', '1'][0]);
            assert(seq!['M', '+', '1'][1] != seq!['M', '-', '1'][1]);
            assert(comp_of(seq!['M', '-', '1']) == Some(Comp::MMinusOne));
        },
        Comp::DPlusM => {
            assert(seq!['D', '+', '1'][2] != seq!['D', '+', 'M'][2]);
            assert(seq!['A', '+', '1'][0] != seq!['D', '+', 'M'][0]);
            assert(seq!['D', '-', '1'][1] != seq!['D', '+', 'M'][1]);
            assert(seq!['A', '-', '1'][0] != seq!['D', '+', 'M'][0]);
            assert(seq!['D', '+', 'A'][2] != seq!['D', '+', 'M'][2]);
            assert(seq!['D', '-', 'A'][1] != seq!['D', '+', 'M'][1]);
            assert(seq!['A', '-', 'D'][0] != seq!['D', '+', 'M'][0]);
            assert(seq!['D', '&', 'A'][1] != seq!['D', '+', 'M'][1]);
            assert(seq!['D', '|', 'A'][1] != seq!['D', '+', 'M'][1]);
            assert(seq!['M', '+', '1'][0] != seq!['D', '+', 'M'][0]);
            assert(seq!['M', '-', '1'][0] != seq!['D', '+', 'M'][0]);
            assert(comp_of(seq!['D', '+', 'M']) == Some(Comp::DPlusM));
        },
        Comp::DMinusM => {
            assert(seq!['D', '+', '1'][1] != seq!['D', '-', 'M'][1]);
            assert(seq!['A', '+', '1'][0] != seq!['D', '-', 'M'][0]);
            assert(seq!['D', '-', '1'][2] != seq!['D', '-', 'M'][2]);
            assert(seq!['A', '-', '1'][0] != seq!['D', '-', 'M'][0]);
            assert(seq!['D', '+', 'A'][1] != seq!['D', '-', 'M'][1]);
            assert(seq!['D', '-', 'A'][2] != seq!['D', '-', 'M'][2]);
            assert(seq!['A', '-', 'D'][0] != seq!['D', '-', 'M'][0]);
            assert(seq!['D', '&', 'A'][1] != seq!['D', '-', 'M'][1]);
            assert(seq!['D', '|', 'A'][1] != seq!['D', '-', 'M'][1]);
            assert(seq!['M', '+', '1'][0] != seq!['D', '-', 'M'][0]);
            assert(seq!['M', '-', '1'][0] != seq!['D', '-', 'M'][0]);
            assert(seq!['D', '+', 'M'][1] != seq!['D', '-', 'M'][1]);
            assert(comp_of(seq!['D', '-', 'M']) == Some(Comp::DMinusM));
        },
        Comp::MMinusD => {
            assert(seq!['D', '+', '1'][0] != seq!['M', '-', 'D'][0]);
            assert(seq!['A', '+', '1'][0] != seq!['M', '-', 'D'][0]);
            assert(seq!['D', '-', '1'][0] != seq!['M', '-', 'D'][0]);
            assert(seq!['A', '-', '1'][0] != seq!['M', '-', 'D'][0]);
            assert(seq!['D', '+', 'A'][0] != seq!['M', '-', 'D'][0]);
            assert(seq!['D', '-', 'A'][0] != seq!['M', '-', 'D'][0]);
            assert(seq!['A', '-', 'D'][0] != seq!['M', '-', 'D'][0]);
            assert(seq!['D', '&', 'A'][0] != seq!['M', '-', 'D'][0]);
            assert(seq!['D', '|', 'A'][0] != seq!['M', '-', 'D'][0]);
            assert(seq!['M', '+', '1'][1] != seq!['M', '-', 'D'][1]);
            assert(seq!['M', '-', '1'][2] != seq!['M', '-', 'D'][2]);
            assert(seq!['D', '+', 'M'][0] != seq!['M', '-', 'D'][0]);
            assert(seq!['D', '-', 'M'][0] != seq!['M', '-', 'D'][0]);
            assert(comp_of(seq!['M', '-', 'D']) == Some(Comp::MMinusD));
        },
        Comp::DAndM => {
            assert(seq!['D', '+', '1'][1] != seq!['D', '&', 'M'][1]);
            assert(seq!['A', '+', '1'][0] != seq!['D', '&', 'M'][0]);
            assert(seq!['D', '-', '1'][1] != seq!['D', '&', 'M'][1]);
            assert(seq!['A', '-', '1'][0] != seq!['D', '&', 'M'][0]);
            assert(seq!['D', '+', 'A'][1] != seq!['D', '&', 'M'][1]);
            assert(seq!['D', '-', 'A'][1] != seq!['D', '&', 'M'][1]);
            assert(seq!['A', '-', 'D'][0] != seq!['D', '&', 'M'][0]);
            assert(seq!['D', '&', 'A'][2] != seq!['D', '&', 'M'][2]);
            assert(seq!['D', '|', 'A'][1] != seq!['D', '&', 'M'][1]);
            assert(seq!['M', '+', '1'][0] != seq!['D', '&', 'M'][0]);
            assert(seq!['M', '-', '1'][0] != seq!['D', '&', 'M'][0]);
            assert(seq!['D', '+', 'M'][1] != seq!['D', '&', 'M'][1]);
            assert(seq!['D', '-', 'M'][1] != seq!['D', '&', 'M'][1]);
            assert(seq!['M', '-', 'D'][0] != seq!['D', '&', 'M'][0]);
            assert(comp_of(seq!['D', '&', 'M']) == Some(Comp::DAndM));
        },
        Comp::DOrM => {
            assert(seq!['D', '+', '1'][1] != seq!['D', '|', 'M'][1]);
            assert(seq!['A', '+', '1'][0] != seq!['D', '|', 'M'][0]);
            assert(seq!['D', '-', '1'][1] != seq!['D', '|', 'M'][1]);
            assert(seq!['A', '-', '1'][0] != seq!['D', '|', 'M'][0]);
            assert(seq!['D', '+', 'A'][1] != seq!['D', '|', 'M'][1]);
            assert(seq!['D', '-', 'A'][1] != seq!['D', '|', 'M'][1]);
            assert(seq!['A', '-', 'D'][0] != seq!['D', '|', 'M'][0]);
            assert(seq!['D', '&', 'A'][1] != seq!['D', '|', 'M'][1]);
            assert(seq!['D', '|', 'A'][2] != seq!['D', '|', 'M'][2]);
            assert(seq!['M', '+', '1'][0] != seq!['D', '|', 'M'][0]);
            assert(seq!['M', '-', '1'][0] != seq!['D', '|', 'M'][0]);
            assert(seq!['D', '+', 'M'][1] != seq!['D', '|', 'M'][1]);
            assert(seq!['D', '-', 'M'][1] != seq!['D', '|', 'M'][1]);
            assert(seq!['M', '-', 'D'][0] != seq!['D', '|', 'M'][0]);
            assert(seq!['D', '&', 'M'][1] != seq!['D', '|', 'M'][1]);
            assert(comp_of(seq!['D', '|', 'M']) == Some(Comp::DOrM));
        },
        Comp::LeftShiftA => {
            assert(seq!['D', '+', '1'][0] != seq!['A', '<', '<'][0]);
            assert(seq!['A', '+', '1'][1] != seq!['A', '<', '<'][1]);
            assert(seq!['D', '-', '1'][0] != seq!['A', '<', '<'][0]);
            assert(seq!['A', '-', '1'][1] != seq!['A', '<', '<'][1]);
            assert(seq!['D', '+', 'A'][0] != seq!['A', '<', '<'][0]);
            assert(seq!['D', '-', 'A'][0] != seq!['A', '<', '<'][0]);
            assert(seq!['A', '-', 'D'][1] != seq!['A', '<', '<'][1]);
            assert(seq!['D', '&', 'A'][0] != seq!['A', '<', '<'][0]);
            assert(seq!['D', '|', 'A'][0] != seq!['A', '<', '<'][0]);
            assert(seq!['M', '+', '1'][0] != seq!['A', '<', '<'][0]);
            assert(seq!['M', '-', '1'][0] != seq!['A', '<', '<'][0]);
            assert(seq!['D', '+', 'M'][0] != seq!['A', '<', '<'][0]);
            assert(seq!['D', '-', 'M'][0] != seq!['A', '<', '<'][0]);
            assert(seq!['M', '-', 'D'][0] != seq!['A', '<', '<'][0]);
            assert(seq!['D', '&', 'M'][0] != seq!['A', '<', '<'][0]);
            assert(seq!['D', '|', 'M'][0] != seq!['A', '<', '<'][0]);
            assert(comp_of(seq!['A', '<', '<']) == Some(Comp::LeftShiftA));
        },
        Comp::LeftShiftD => {
            assert(seq!['D', '+', '1'][1] != seq!['D', '<', '<'][1]);
            assert(seq!['A', '+', '1'][0] != seq!['D', '<', '<'][0]);
            assert(seq!['D', '-', '1'][1] != seq!['D', '<', '<'][1]);
            assert(seq!['A', '-', '1'][0] != seq!['D', '<', '<'][0]);
            assert(seq!['D', '+', 'A'][1] != seq!['D', '<', '<'][1]);
            assert(seq!['D', '-', 'A'][1] != seq!['D', '<', '<'][1]);
            assert(seq!['A', '-', 'D'][0] != seq!['D', '<', '<'][0]);
            assert(seq!['D', '&', 'A'][1] != seq!['D', '<', '<'][1]);
            assert(seq!['D', '|', 'A'][1] != seq!['D', '<', '<'][1]);
            assert(seq!['M', '+', '1'][0] != seq!['D', '<', '<'][0]);
            assert(seq!['M', '-', '1'][0] != seq!['D', '<', '<'][0]);
            assert(seq!['D', '+', 'M'][1] != seq!['D', '<', '<'][1]);
            assert(seq!['D', '-', 'M'][1] != seq!['D', '<', '<'][1]);
            assert(seq!['M', '-', 'D'][0] != seq!['D', '<', '<'][0]);
            assert(seq!['D', '&', 'M'][1] != seq!['D', '<', '<'][1]);
            assert(seq!['D', '|', 'M'][1] != seq!['D', '<', '<'][1]);
            assert(seq!['A', '<', '<'][0] != seq!['D', '<', '<'][0]);
            assert(comp_of(seq!['D', '<', '<']) == Some(Comp::LeftShiftD));
        },
        Comp::LeftShiftM => {
            assert(seq!['D', '+', '1'][0] != seq!['M', '<', '<'][0]);
            assert(seq!['A', '+', '1'][0] != seq!['M', '<', '<'][0]);
            assert(seq!['D', '-', '1'][0] != seq!['M', '<', '<'][0]);
            assert(seq!['A', '-', '1'][0] != seq!['M', '<', '<'][0]);
            assert(seq!['D', '+', 'A'][0] != seq!['M', '<', '<'][0]);
            assert(seq!['D', '-', 'A'][0] != seq!['M', '<', '<'][0]);
            assert(seq!['A', '-', 'D'][0] != seq!['M', '<', '<'][0]);
            assert(seq!['D', '&', 'A'][0] != seq!['M', '<', '<'][0]);
            assert(seq!['D', '|', 'A'][0] != seq!['M', '<', '<'][0]);
            assert(seq!['M', '+', '1'][1] != seq!['M', '<', '<'][1]);
            assert(seq!['M', '-', '1'][1] != seq!['M', '<', '<'][1]);
            assert(seq!['D', '+', 'M'][0] != seq!['M', '<', '<'][0]);
            assert(seq!['D', '-', 'M'][0] != seq!['M', '<', '<'][0]);
            assert(seq!['M', '-', 'D'][1] != seq!['M', '<', '<'][1]);
            assert(seq!['D', '&', 'M'][0] != seq!['M', '<', '<'][0]);
            assert(seq!['D', '|', 'M'][0] != seq!['M', '<', '<'][0]);
            assert(seq!['A', '<', '<'][0] != seq!['M', '<', '<'][0]);
            assert(seq!['D', '<', '<'][0] != seq!['M', '<', '<'][0]);
            assert(comp_of(seq!['M', '<', '<']) == Some(Comp::LeftShiftM));
        },
        Comp::RightShiftA => {
            assert(seq!['D', '+', '1'][0] != seq!['A', '>', '>'][0]);
            assert(seq!['A', '+', '1'][1] != seq!['A', '>', '>'][1]);
            assert(seq!['D', '-', '1'][0] != seq!['A', '>', '>'][0]);
            assert(seq!['A', '-', '1'][1] != seq!['A', '>', '>'][1]);
            assert(seq!['D', '+', 'A'][0] != seq!['A', '>', '>'][0]);
            assert(seq!['D', '-', 'A'][0] != seq!['A', '>', '>'][0]);
            assert(seq!['A', '-', 'D'][1] != seq!['A', '>', '>'][1]);
            assert(seq!['D', '&', 'A'][0] != seq!['A', '>', '>'][0]);
            assert(seq!['D', '|', 'A'][0] != seq!['A', '>', '>'][0]);
            assert(seq!['M', '+', '1'][0] != seq!['A', '>', '>'][0]);
            assert(seq!['M', '-', '1'][0] != seq!['A', '>', '>'][0]);
            assert(seq!['D', '+', 'M'][0] != seq!['A', '>', '>'][0]);
            assert(seq!['D', '-', 'M'][0] != seq!['A', '>', '>'][0]);
            assert(seq!['M', '-', 'D'][0] != seq!['A', '>', '>'][0]);
            assert(seq!['D', '&', 'M'][0] != seq!['A', '>', '>'][0]);
            assert(seq!['D', '|', 'M'][0] != seq!['A', '>', '>'][0]);
            assert(seq!['A', '<', '<'][1] != seq!['A', '>', '>'][1]);
            assert(seq!['D', '<', '<'][0] != seq!['A', '>', '>'][0]);
            assert(seq!['M', '<', '<'][0] != seq!['A', '>', '>'][0]);
            assert(comp_of(seq!['A', '>', '>']) == Some(Comp::RightShiftA));
        },
        Comp::RightShiftD => {
            assert(seq!['D', '+', '1'][1] != seq!['D', '>', '>'][1]);
            assert(seq!['A', '+', '1'][0] != seq!['D', '>', '>'][0]);
            assert(seq!['D', '-', '1'][1] != seq!['D', '>', '>'][1]);
            assert(seq!['A', '-', '1'][0] != seq!['D', '>', '>'][0]);
            assert(seq!['D', '+', 'A'][1] != seq!['D', '>', '>'][1]);
            assert(seq!['D', '-', 'A'][1] != seq!['D', '>', '>'][1]);
            assert(seq!['A', '-', 'D'][0] != seq!['D', '>', '>'][0]);
            assert(seq!['D', '&', 'A'][1] != seq!['D', '>', '>'][1]);
            assert(seq!['D', '|', 'A'][1] != seq!['D', '>', '>'][1]);
            assert(seq!['M', '+', '1'][0] != seq!['D', '>', '>'][0]);
            assert(seq!['M', '-', '1'][0] != seq!['D', '>', '>'][0]);
            assert(seq!['D', '+', 'M'][1] != seq!['D', '>', '>'][1]);
            assert(seq!['D', '-', 'M'][1] != seq!['D', '>', '>'][1]);
            assert(seq!['M', '-', 'D'][0] != seq!['D', '>', '>'][0]);
            assert(seq!['D', '&', 'M'][1] != seq!['D', '>', '>'][1]);
            assert(seq!['D', '|', 'M'][1] != seq!['D', '>', '>'][1]);
            assert(seq!['A', '<', '<'][0] != seq!['D', '>', '>'][0]);
            assert(seq!['D', '<', '<'][1] != seq!['D', '>', '>'][1]);
            assert(seq!['M', '<', '<'][0] != seq!['D', '>', '>'][0]);
            assert(seq!['A', '>', '>'][0] != seq!['D', '>', '>'][0]);
            assert(comp_of(seq!['D', '>', '>']) == Some(Comp::RightShiftD));
        },
        Comp::RightShiftM => {
            assert(seq!['D', '+', '1'][0] != seq!['M', '>', '>'][0]);
            assert(seq!['A', '+', '1'][0] != seq!['M', '>', '>'][0]);
            assert(seq!['D', '-', '1'][0] != seq!['M', '>', '>'][0]);
            assert(seq!['A', '-', '1'][0] != seq!['M', '>', '>'][0]);
            assert(seq!['D', '+', 'A'][0] != seq!['M', '>', '>'][0]);
            assert(seq!['D', '-', 'A'][0] != seq!['M', '>', '>'][0]);
            assert(seq!['A', '-', 'D'][0] != seq!['M', '>', '>'][0]);
            assert(seq!['D', '&', 'A'][0] != seq!['M', '>', '>'][0]);
            assert(seq!['D', '|', 'A'][0] != seq!['M', '>', '>'][0]);
            assert(seq!['M', '+', '1'][1] != seq!['M', '>', '>'][1]);
            assert(seq!['M', '-', '1'][1] != seq!['M', '>', '>'][1]);
            assert(seq!['D', '+', 'M'][0] != seq!['M', '>', '>'][0]);
            assert(seq!['D', '-', 'M'][0] != seq!['M', '>', '>'][0]);
            assert(seq!['M', '-', 'D'][1] != seq!['M', '>', '>'][1]);
            assert(seq!['D', '&', 'M'][0] != seq!['M', '>', '>'][0]);
            assert(seq!['D', '|', 'M'][0] != seq!['M', '>', '>'][0]);
            assert(seq!['A', '<', '<'][0] != seq!['M', '>', '>'][0]);
            assert(seq!['D', '<', '<'][0] != seq!['M', '>', '>'][0]);
            assert(seq!['M', '<', '<'][1] != seq!['M', '>', '>'][1]);
            assert(seq!['A', '>', '>'][0] != seq!['M', '>', '>'][0]);
            assert(seq!['D', '>', '>'][0] != seq!['M', '>', '>'][0]);
            assert(comp_of(seq!['M', '>', '>']) == Some(Comp::RightShiftM));
        },
    }
}

proof fn lemma_split_plain(s: Seq<char>)
    requires
        forall|i: int| 0 <= i < s.len() ==> !is_separator(#[trigger] s[i]),
    ensures
        split_fields(s) == seq![s],
    decreases s.len(),
{
    if s.len() == 0 {
        assert(s =~= Seq::<char>::empty());
    } else {
        let p = s.drop_last();
        assert forall|i: int| 0 <= i < p.len() implies !is_separator(#[trigger] p[i]) by {
            assert(p[i] == s[i]);
        }
        lemma_split_plain(p);
        assert(!is_separator(s[s.len() - 1]));
        assert(p.push(s.last()) =~= s);
        assert(seq![p].update(0, p.push(s.last())) =~= seq![s]);
    }
}

proof fn lemma_split_after_separator(a: Seq<char>, sep: char, b: Seq<char>)
    requires
        is_separator(sep),
        forall|i: int| 0 <= i < b.len() ==> !is_separator(#[trigger] b[i]),
    ensures
        split_fields(a + seq![sep] + b) == split_fields(a).push(b),
    decreases b.len(),
{
    let w = a + seq![sep] + b;
    if b.len() == 0 {
        assert(w.drop_last() =~= a);
        assert(w.last() == sep);
        assert(b =~= Seq::<char>::empty());
    } else {
        let b1 = b.drop_last();
        assert forall|i: int| 0 <= i < b1.len() implies !is_separator(#[trigger] b1[i]) by {
            assert(b1[i] == b[i]);
        }
        lemma_split_after_separator(a, sep, b1);
        assert(w.drop_last() =~= a + seq![sep] + b1);
        assert(w.last() == b.last());
        assert(!is_separator(b[b.len() - 1]));
        let p = split_fields(a).push(b1);
        assert(b1.push(b.last()) =~= b);
        assert(p.update(p.len() - 1, p.last().push(b.last())) =~= split_fields(a).push(b));
    }
}

/// Re-assembling the canonical text of a compute instruction gives the instruction back, under
/// any symbol table. This holds when exactly one of the destination and the jump is present:
/// the canonical text of an instruction with neither has a single field, and one with both has
/// three, and the assembler takes neither form.
pub proof fn lemma_canonical_text_round_trip(c: C, m: Map<Seq<char>, u16>)
    requires
        (c.dest is Null) != (c.jump is Null),
    ensures
        decode_line(c_text(c), m) == Some(Instruction::C(c)),
{
    lemma_destination_mnemonics(c.dest);
    lemma_comp_mnemonics(c.comp);
    lemma_jump_mnemonics(c.jump);
    lemma_destination_mnemonics(Destination::Null);
    lemma_jump_mnemonics(Jump::Null);
    let d = destination_text(c.dest);
    let k = comp_text(c.comp);
    let j = jump_text(c.jump);
    let t = c_text(c);
    if c.jump is Null {
        assert(t =~= d + seq!['='] + k);
        lemma_split_plain(d);
        lemma_split_after_separator(d, '=', k);
        assert(split_fields(t) =~= seq![d, k]);
        assert(!t.contains(';')) by {
            assert forall|i: int| 0 <= i < t.len() implies t[i] != ';' by {
                if i < d.len() {
                    assert(t[i] == d[i]);
                } else if i > d.len() {
                    assert(t[i] == k[i - d.len() - 1]);
                }
            }
        }
        assert(t[0] != '@') by {
            if d.len() > 0 {
                assert(t[0] == d[0]);
            }
        }
    } else {
        assert(t =~= k + seq![';'] + j);
        lemma_split_plain(k);
        lemma_split_after_separator(k, ';', j);
        assert(split_fields(t) =~= seq![k, j]);
        assert(t[k.len() as int] == ';');
        assert(t[0] == k[0]);
    }
}

/// Spaces in a line without a comment make no difference to what it assembles to: two such
/// lines that are equal once spaces are removed clean to the same text.
pub proof fn lemma_spaces_are_incidental(s1: Seq<char>, s2: Seq<char>)
    requires
        s1.len() > 0,
        s2.len() > 0,
        comment_from(s1, 0) is None,
        comment_from(s2, 0) is None,
        s1.filter(not_space()) == s2.filter(not_space()),
    ensures
        clean_line(s1) == clean_line(s2),
{
    assert(!comment_at(s1, 0)) by {
        if comment_at(s1, 0) {
            assert(comment_from(s1, 0) == Some(0nat));
        }
    }
    assert(!comment_at(s2, 0)) by {
        if comment_at(s2, 0) {
            assert(comment_from(s2, 0) == Some(0nat));
        }
    }
}


proof fn lemma_count_labels_bound(lines: Seq<Seq<char>>)
    ensures
        count_labels(lines) <= lines.len(),
    decreases lines.len(),
{
    if lines.len() > 0 {
        lemma_count_labels_bound(lines.drop_last());
    }
}

/// What a cleaned line that is not a label puts in its slot.
pub open spec fn slot_content(l: Seq<char>, m: Map<Seq<char>, u16>) -> Instruction {
    if l.len() == 0 {
        Instruction::Empty
    } else {
        decode_line(l, m)->0
    }
}

/// An assembled program has one slot for each line that is not a label, and the line at index
/// `k` lands in slot `k` minus the number of labels before it.
pub proof fn lemma_assembled_slots(lines: Seq<Seq<char>>, m: Map<Seq<char>, u16>)
    ensures
        assemble(lines, m) matches Ok(p) ==> {
            &&& p.len() == lines.len() - count_labels(lines)
            &&& forall|k: int|
                0 <= k < lines.len() && !is_label(#[trigger] lines[k]) ==> 0 <= slot_of(lines, k)
                    < p.len() && p[slot_of(lines, k)] == slot_content(lines[k], m)
        },
    decreases lines.len(),
{
    if lines.len() > 0 {
        let q = lines.drop_last();
        lemma_assembled_slots(q, m);
        lemma_count_labels_bound(q);
        if let Ok(p) = assemble(lines, m) {
            assert forall|k: int| 0 <= k < lines.len() && !is_label(#[trigger] lines[k]) implies 0
                <= slot_of(lines, k) < p.len() && p[slot_of(lines, k)] == slot_content(
                lines[k],
                m,
            ) by {
                assert(lines.take(k) =~= q.take(k)) by {
                    if k < lines.len() - 1 {
                        assert(lines.take(k) =~= q.take(k));
                    } else {
                        assert(lines.take(k) =~= q);
                        assert(q.take(k) =~= q);
                    }
                }
                if k < lines.len() - 1 {
                    assert(q[k] == lines[k]);
                }
            }
        }
    }
}

/// A label is bound to the slot of its own line, when no later line declares the same name.
pub proof fn lemma_label_binding(m: Map<Seq<char>, u16>, lines: Seq<Seq<char>>, j: int)
    requires
        0 <= j < lines.len(),
        is_label(lines[j]),
        forall|k: int|
            j < k < lines.len() && is_label(#[trigger] lines[k]) ==> label_name(lines[k])
                != label_name(lines[j]),
    ensures
        bind_labels(m, lines).contains_key(label_name(lines[j])),
        bind_labels(m, lines)[label_name(lines[j])] == slot_of(lines, j) as u16,
    decreases lines.len(),
{
    let q = lines.drop_last();
    if j < lines.len() - 1 {
        assert(q[j] == lines[j]);
        assert forall|k: int|
            j < k < q.len() && is_label(#[trigger] q[k]) implies label_name(q[k]) != label_name(
            q[j],
        ) by {
            assert(q[k] == lines[k]);
        }
        lemma_label_binding(m, q, j);
        assert(q.take(j) =~= lines.take(j));
    }
}

/// The labels between line `j` and line `k` take no slot: when every line from `j` up to just
/// before `k` is a label, lines `j` and `k` have the same slot.
pub proof fn lemma_labels_share_next_slot(lines: Seq<Seq<char>>, j: int, k: int)
    requires
        0 <= j <= k <= lines.len(),
        forall|i: int| j <= i < k ==> is_label(#[trigger] lines[i]),
    ensures
        slot_of(lines, k) == slot_of(lines, j),
    decreases k - j,
{
    if k > j {
        lemma_labels_share_next_slot(lines, j, k - 1);
        let t = lines.take(k);
        assert(t.drop_last() =~= lines.take(k - 1));
        assert(t.last() == lines[k - 1]);
    }
}

/// The variable pass never changes a binding that is already there.
pub proof fn lemma_variables_keep_bindings(
    m: Map<Seq<char>, u16>,
    cursor: u16,
    lines: Seq<Seq<char>>,
    name: Seq<char>,
)
    requires
        m.contains_key(name),
    ensures
        bind_variables(m, cursor, lines).0.contains_key(name),
        bind_variables(m, cursor, lines).0[name] == m[name],
    decreases lines.len(),
{
    if lines.len() > 0 {
        lemma_variables_keep_bindings(m, cursor, lines.drop_last(), name);
    }
}

/// Label resolution: an address instruction that names a label, declared before or after it,
/// assembles to the slot of the label's line, which is the slot of the next instruction; a
/// label on the first line resolves to slot 0. The label's slot must fit in 15 bits, and no
/// later line may declare the same name again.
pub proof fn lemma_label_resolution(
    m: Map<Seq<char>, u16>,
    cursor: u16,
    lines: Seq<Seq<char>>,
    i: int,
    j: int,
)
    requires
        0 <= i < lines.len(),
        0 <= j < lines.len(),
        is_label(lines[j]),
        forall|k: int|
            j < k < lines.len() && is_label(#[trigger] lines[k]) ==> label_name(lines[k])
                != label_name(lines[j]),
        is_address(lines[i]),
        lines[i].skip(1) == label_name(lines[j]),
        slot_of(lines, j) <= i16::MAX,
    ensures
        decode_line(lines[i], resolve_symbols(m, cursor, lines).0) == Some(
            Instruction::A(A { dest: slot_of(lines, j) as i16 }),
        ),
        slot_of(lines, j) == slot_of(lines, j + 1),
        j == 0 ==> slot_of(lines, j) == 0,
{
    lemma_label_binding(m, lines, j);
    lemma_count_labels_bound(lines.take(j));
    lemma_variables_keep_bindings(bind_labels(m, lines), cursor, lines, label_name(lines[j]));
    lemma_labels_share_next_slot(lines, j, j + 1);
    if j == 0 {
        assert(lines.take(0) =~= Seq::<Seq<char>>::empty());
    }
}

/// The operand text of an address instruction.
pub open spec fn address_line(name: Seq<char>) -> Seq<char> {
    seq!['@'] + name
}

/// Variable allocation: new names that are not numbers get consecutive addresses from the
/// cursor in order of first use, and a name used again keeps its address; a number is bound to
/// its own value and leaves the cursor where it was.
pub proof fn lemma_variable_allocation(
    m: Map<Seq<char>, u16>,
    cursor: u16,
    x: Seq<char>,
    n: Seq<char>,
    y: Seq<char>,
)
    requires
        !m.contains_key(x),
        !m.contains_key(n),
        !m.contains_key(y),
        x != y,
        x != n,
        y != n,
        u16_literal(x) is None,
        u16_literal(y) is None,
        u16_literal(n) is Some,
        cursor + 2 <= u16::MAX,
    ensures
        ({
            let (m2, c2) = bind_variables(
                m,
                cursor,
                seq![address_line(x), address_line(n), address_line(y), address_line(x)],
            );
            &&& m2[x] == cursor
            &&& m2[n] == u16_literal(n)->0
            &&& m2[y] == cursor + 1
            &&& c2 == cursor + 2
        }),
{
    let lines = seq![address_line(x), address_line(n), address_line(y), address_line(x)];
    assert(address_line(x).skip(1) =~= x);
    assert(address_line(n).skip(1) =~= n);
    assert(address_line(y).skip(1) =~= y);
    let l1 = seq![address_line(x)];
    let l2 = seq![address_line(x), address_line(n)];
    let l3 = seq![address_line(x), address_line(n), address_line(y)];
    assert(l1.drop_last() =~= Seq::<Seq<char>>::empty());
    assert(l2.drop_last() =~= l1);
    assert(l3.drop_last() =~= l2);
    assert(lines.drop_last() =~= l3);
    let b0 = bind_variables(m, cursor, Seq::<Seq<char>>::empty());
    assert(b0 == (m, cursor));
    let b1 = bind_variables(m, cursor, l1);
    assert(b1 == bind_operand(m, cursor, x));
    assert(b1 == (m.insert(x, cursor), (cursor + 1) as u16));
    let b2 = bind_variables(m, cursor, l2);
    assert(b2 == bind_operand(b1.0, b1.1, n));
    assert(!b1.0.contains_key(n));
    let b3 = bind_variables(m, cursor, l3);
    assert(b3 == bind_operand(b2.0, b2.1, y));
    assert(!b2.0.contains_key(y));
    let b4 = bind_variables(m, cursor, lines);
    assert(b4 == bind_operand(b3.0, b3.1, x));
    assert(b3.0.contains_key(x));
}

/// Every operand of an address instruction is bound once the symbols are resolved, so that an
/// address instruction can fail to assemble only when its address does not fit in 15 bits.
pub proof fn lemma_operands_bound(m: Map<Seq<char>, u16>, cursor: u16, lines: Seq<Seq<char>>, i: int)
    requires
        0 <= i < lines.len(),
        is_address(lines[i]),
    ensures
        resolve_symbols(m, cursor, lines).0.contains_key(lines[i].skip(1)),
    decreases lines.len(),
{
    let q = lines.drop_last();
    let m1 = bind_labels(m, lines);
    if i == lines.len() - 1 {
    } else {
        assert(q[i] == lines[i]);
        lemma_operands_bound_in(m1, cursor, q, i);
        let (p, c) = bind_variables(m1, cursor, q);
        let l = lines.last();
        if is_address(l) {
            assert(p.contains_key(lines[i].skip(1)));
        }
    }
}

proof fn lemma_operands_bound_in(m: Map<Seq<char>, u16>, cursor: u16, lines: Seq<Seq<char>>, i: int)
    requires
        0 <= i < lines.len(),
        is_address(lines[i]),
    ensures
        bind_variables(m, cursor, lines).0.contains_key(lines[i].skip(1)),
    decreases lines.len(),
{
    let q = lines.drop_last();
    if i < lines.len() - 1 {
        assert(q[i] == lines[i]);
        lemma_operands_bound_in(m, cursor, q, i);
    }
}

} // verus!
