use vstd::prelude::*;
use vstd::string::StringExecFns;

use crate::token::{scan, scan_spec, LexError, Token, TokenKind};

verus! {

/// One instruction of a compiled program. Jump targets are absolute addresses.
#[derive(Clone, Copy, Debug, PartialEq, Eq, Structural)]
pub enum Instruction {
    IncPtr,
    DecPtr,
    IncData,
    DecData,
    Input,
    Output,
    JZ(usize),
    JNZ(usize),
    Exit,
}

/// Why a token sequence does not compile.
#[derive(Debug, PartialEq, Eq)]
pub enum CompileError {
    /// The source holds a character that is not a symbol.
    Lex(LexError),
    /// A `]` at this row and column closes no open `[`.
    UnmatchedClose(usize, usize),
    /// These `[` (row and column, outermost first) are never closed.
    UnmatchedOpen(Vec<(usize, usize)>),
}

/// The addresses of the `[` still open before token `k`, outermost first. A `]` with no open
/// `[` leaves the stack as it is.
pub open spec fn open_stack(ts: Seq<Token>, k: int) -> Seq<int>
    decreases k,
{
    if k <= 0 {
        Seq::empty()
    } else {
        let prev = open_stack(ts, k - 1);
        let kind = ts[k - 1].kind;
        if kind == TokenKind::LeftBracket {
            prev.push(k - 1)
        } else if kind == TokenKind::RightBracket && prev.len() > 0 {
            prev.drop_last()
        } else {
            prev
        }
    }
}

/// Token `k` is a `]` with no `[` open before it.
pub open spec fn unmatched_close_at(ts: Seq<Token>, k: int) -> bool {
    &&& 0 <= k < ts.len()
    &&& ts[k].kind == TokenKind::RightBracket
    &&& open_stack(ts, k).len() == 0
}

/// Token `k` is the first `]` that closes nothing.
pub open spec fn first_unmatched_close(ts: Seq<Token>, k: int) -> bool {
    &&& unmatched_close_at(ts, k)
    &&& forall|q: int| 0 <= q < k ==> !unmatched_close_at(ts, q)
}

/// Every `]` closes an earlier `[` and every `[` is closed.
pub open spec fn balanced(ts: Seq<Token>) -> bool {
    &&& forall|k: int| 0 <= k < ts.len() ==> !unmatched_close_at(ts, k)
    &&& open_stack(ts, ts.len() as int).len() == 0
}

/// The `[` at `i` and the `]` at `j` form a pair: `j` closes the innermost bracket open before it.
pub open spec fn bracket_pair(ts: Seq<Token>, i: int, j: int) -> bool {
    &&& 0 <= j < ts.len()
    &&& ts[j].kind == TokenKind::RightBracket
    &&& open_stack(ts, j).len() > 0
    &&& open_stack(ts, j).last() == i
}

/// The instruction for a symbol that is not a bracket.
pub open spec fn simple_instruction(k: TokenKind) -> Instruction {
    match k {
        TokenKind::RightBrace => Instruction::IncPtr,
        TokenKind::LeftBrace => Instruction::DecPtr,
        TokenKind::Plus => Instruction::IncData,
        TokenKind::Minus => Instruction::DecData,
        TokenKind::Dot => Instruction::Output,
        TokenKind::Comma => Instruction::Input,
        _ => Instruction::Exit,
    }
}

pub open spec fn is_bracket(k: TokenKind) -> bool {
    k == TokenKind::LeftBracket || k == TokenKind::RightBracket
}

/// The instruction sequence `ins` is the compiled form of the balanced tokens `ts`: one
/// instruction per token and a final `Exit`; each `[` jumps past its `]` and each `]` back
/// to its `[`.
pub open spec fn compiled_from(ts: Seq<Token>, ins: Seq<Instruction>) -> bool {
    &&& ins.len() == ts.len() + 1
    &&& ins.last() == Instruction::Exit
    &&& forall|k: int|
        0 <= k < ts.len() && !is_bracket(#[trigger] ts[k].kind) ==> ins[k] == simple_instruction(
            ts[k].kind,
        )
    &&& forall|j: int|
        0 <= j < ts.len() && ts[j].kind == TokenKind::RightBracket ==> #[trigger] ins[j]
            == Instruction::JNZ(open_stack(ts, j).last() as usize)
    &&& forall|i: int|
        0 <= i < ts.len() && ts[i].kind == TokenKind::LeftBracket ==> {
            &&& #[trigger] ins[i] is JZ
            &&& 1 <= ins[i]->JZ_0 <= ts.len()
            &&& bracket_pair(ts, i, ins[i]->JZ_0 - 1)
        }
}

/// The row and column of each token at the given addresses.
pub open spec fn positions_of(ts: Seq<Token>, addrs: Seq<int>) -> Seq<(usize, usize)> {
    addrs.map_values(|i: int| (ts[i].row, ts[i].col))
}

/// A compiled program: the instructions of its tokens and a final `Exit`.
pub struct Program {
    instructions: Vec<Instruction>,
}

impl View for Program {
    type V = Seq<Instruction>;

    closed spec fn view(&self) -> Seq<Instruction> {
        self.instructions@
    }
}

/// Every jump lands inside the program and the last instruction is `Exit`.
pub open spec fn program_wf(ins: Seq<Instruction>) -> bool {
    &&& 1 <= ins.len() <= usize::MAX
    &&& ins.last() == Instruction::Exit
    &&& forall|k: int|
        0 <= k < ins.len() ==> match #[trigger] ins[k] {
            Instruction::JZ(t) => t < ins.len(),
            Instruction::JNZ(t) => t < ins.len(),
            _ => true,
        }
}

/// The open-bracket stack holds, in increasing order, addresses of `[` before `k`.
proof fn lemma_open_stack(ts: Seq<Token>, k: int)
    requires
        0 <= k <= ts.len(),
    ensures
        forall|a: int|
            0 <= a < open_stack(ts, k).len() ==> 0 <= #[trigger] open_stack(ts, k)[a] < k
                && ts[open_stack(ts, k)[a]].kind == TokenKind::LeftBracket,
        forall|a: int, b: int|
            0 <= a < b < open_stack(ts, k).len() ==> open_stack(ts, k)[a] < open_stack(
                ts,
                k,
            )[b],
    decreases k,
{
    if k > 0 {
        lemma_open_stack(ts, k - 1);
    }
}

/// What compiling the tokens `ts` gives: the compiled program when they are balanced,
/// else the first `]` that closes nothing, else the `[` left open.
pub open spec fn compile_outcome(ts: Seq<Token>, r: Result<Program, CompileError>) -> bool {
    match r {
        Ok(p) => balanced(ts) && compiled_from(ts, p@) && program_wf(p@),
        Err(CompileError::UnmatchedClose(row, col)) => exists|k: int|
            first_unmatched_close(ts, k) && ts[k].row == row && ts[k].col == col,
        Err(CompileError::UnmatchedOpen(ps)) => {
            &&& forall|k: int| 0 <= k < ts.len() ==> !unmatched_close_at(ts, k)
            &&& open_stack(ts, ts.len() as int).len() > 0
            &&& ps@ == positions_of(ts, open_stack(ts, ts.len() as int))
        },
        Err(CompileError::Lex(_)) => false,
    }
}

/// The source text `s` scans into balanced tokens.
pub open spec fn compiles(s: Seq<char>) -> bool {
    match scan_spec(s) {
        Ok(ts) => balanced(ts),
        Err(_) => false,
    }
}

/// The source text `s` scans into balanced tokens whose compiled form is `ins`.
pub open spec fn compiles_to(s: Seq<char>, ins: Seq<Instruction>) -> bool {
    match scan_spec(s) {
        Ok(ts) => balanced(ts) && compiled_from(ts, ins),
        Err(_) => false,
    }
}

/// The lowercase hexadecimal digit of `d < 16`.
pub open spec fn hex_digit(d: nat) -> char {
    seq!['0', '1', '2', '3', '4', '5', '6', '7', '8', '9', 'a', 'b', 'c', 'd', 'e', 'f'][d as int]
}

/// The value of a hexadecimal digit (0 for any other character).
pub open spec fn digit_value(c: char) -> nat {
    if '0' <= c && c <= '9' {
        (c as nat - '0' as nat) as nat
    } else if 'a' <= c && c <= 'f' {
        (c as nat - 'a' as nat + 10) as nat
    } else {
        0
    }
}

/// The number that a string of hexadecimal digits denotes.
pub open spec fn hex_value(s: Seq<char>) -> nat
    decreases s.len(),
{
    if s.len() == 0 {
        0
    } else {
        hex_value(s.drop_last()) * 16 + digit_value(s.last())
    }
}

/// The lowercase hexadecimal digits of `n`, without leading zeros.
pub open spec fn hex_digits(n: nat) -> Seq<char>
    decreases n,
{
    if n < 16 {
        seq![hex_digit(n)]
    } else {
        hex_digits(n / 16).push(hex_digit(n % 16))
    }
}

/// The lowercase hexadecimal digits of `n`, padded on the left with zeros to eight.
pub open spec fn hex_word_spec(n: nat) -> Seq<char> {
    let d = hex_digits(n);
    if d.len() < 8 {
        Seq::new((8 - d.len()) as nat, |i: int| '0') + d
    } else {
        d
    }
}

/// Relies on `format!` with `{:08x}`: lowercase hexadecimal, zero-padded to width eight.
#[verifier::external_body]
fn hex_word(n: usize) -> (r: String)
    ensures
        r@ == hex_word_spec(n as nat),
{
    format!("{:08x}", n)
}

/// The one-line text of an instruction.
pub open spec fn text_of(ins: Instruction) -> Seq<char> {
    match ins {
        Instruction::IncPtr => "incp"@,
        Instruction::DecPtr => "decp"@,
        Instruction::IncData => "incd"@,
        Instruction::DecData => "decd"@,
        Instruction::Input => "rd"@,
        Instruction::Output => "wr"@,
        Instruction::JZ(t) => "jz 0x"@ + hex_word_spec(t as nat),
        Instruction::JNZ(t) => "jnz 0x"@ + hex_word_spec(t as nat),
        Instruction::Exit => "exit"@,
    }
}

/// The disassembly line of the instruction at address `a`.
pub open spec fn dump_line(a: nat, ins: Instruction) -> Seq<char> {
    "0x"@ + hex_word_spec(a) + ": "@ + text_of(ins) + "\n"@
}

/// The disassembly of the first `k` instructions, one line each.
pub open spec fn dump_spec(ins: Seq<Instruction>, k: int) -> Seq<char>
    decreases k,
{
    if k <= 0 {
        Seq::empty()
    } else {
        dump_spec(ins, k - 1) + dump_line((k - 1) as nat, ins[k - 1])
    }
}

/// Without brackets the open-bracket stack stays empty.
proof fn lemma_no_brackets_stack(ts: Seq<Token>, k: int)
    requires
        0 <= k <= ts.len(),
        forall|q: int| 0 <= q < ts.len() ==> !is_bracket(#[trigger] ts[q].kind),
    ensures
        open_stack(ts, k).len() == 0,
    decreases k,
{
    if k > 0 {
        lemma_no_brackets_stack(ts, k - 1);
    }
}

/// Once the `]` at `j` closes the `[` at `i`, no later stack holds `i`.
proof fn lemma_closed_stays_closed(ts: Seq<Token>, i: int, j: int, q: int)
    requires
        bracket_pair(ts, i, j),
        j < q <= ts.len(),
    ensures
        !open_stack(ts, q).contains(i),
    decreases q,
{
    lemma_open_stack(ts, j);
    lemma_open_stack(ts, q);
    let os = open_stack(ts, q);
    if q == j + 1 {
        let before = open_stack(ts, j);
        if os.contains(i) {
            let a = choose|a: int| 0 <= a < os.len() && os[a] == i;
            assert(before[a] == i);
            assert(before[a] < before[before.len() - 1]);
        }
    } else {
        lemma_closed_stays_closed(ts, i, j, q - 1);
        let prev = open_stack(ts, q - 1);
        if os.contains(i) {
            let a = choose|a: int| 0 <= a < os.len() && os[a] == i;
            if ts[q - 1].kind == TokenKind::LeftBracket {
                if a < prev.len() {
                    assert(prev[a] == i);
                } else {
                    assert(os[a] == q - 1);
                }
            } else if ts[q - 1].kind == TokenKind::RightBracket && prev.len() > 0 {
                assert(prev[a] == i);
            } else {
                assert(prev[a] == i);
            }
        }
    }
}

/// A token sequence without brackets compiles, to one instruction per token and a final
/// `Exit`.
pub proof fn lemma_no_brackets_length(ts: Seq<Token>, r: Result<Program, CompileError>)
    requires
        forall|q: int| 0 <= q < ts.len() ==> !is_bracket(#[trigger] ts[q].kind),
        compile_outcome(ts, r),
    ensures
        r is Ok,
        r->Ok_0@.len() == ts.len() + 1,
{
    lemma_no_brackets_stack(ts, ts.len() as int);
    assert forall|k: int| 0 <= k < ts.len() implies !unmatched_close_at(ts, k) by {
        assert(!is_bracket(ts[k].kind));
    }
    if let Err(CompileError::UnmatchedClose(row, col)) = r {
        let k = choose|k: int| first_unmatched_close(ts, k) && ts[k].row == row && ts[k].col == col;
        assert(!unmatched_close_at(ts, k));
    }
}

/// The jumps of a compiled program give back the bracket structure of its source: the
/// instructions at `i` and `j` jump to each other (`i` past `j`, `j` back to `i`) exactly
/// when the `]` at `j` closes the `[` at `i`.
pub proof fn lemma_jump_pairs_round_trip(ts: Seq<Token>, ins: Seq<Instruction>, i: int, j: int)
    requires
        balanced(ts),
        compiled_from(ts, ins),
        program_wf(ins),
        0 <= i < ts.len(),
        0 <= j < ts.len(),
    ensures
        (ins[i] == Instruction::JZ((j + 1) as usize) && ins[j] == Instruction::JNZ(i as usize))
            <==> bracket_pair(ts, i, j),
{
    if bracket_pair(ts, i, j) {
        lemma_open_stack(ts, j);
        let os = open_stack(ts, j);
        assert(os[os.len() - 1] == i);
        assert(ts[i].kind == TokenKind::LeftBracket);
        let t = ins[i]->JZ_0 - 1;
        assert(bracket_pair(ts, i, t));
        if t < j {
            lemma_closed_stays_closed(ts, i, t, j);
            assert(os.contains(i));
        } else if j < t {
            lemma_closed_stays_closed(ts, i, j, t);
            lemma_open_stack(ts, t);
            let ot = open_stack(ts, t);
            assert(ot.contains(i)) by {
                assert(ot[ot.len() - 1] == i);
            }
        }
    }
    if ins[i] == Instruction::JZ((j + 1) as usize) {
        if ts[i].kind != TokenKind::LeftBracket {
            if ts[i].kind == TokenKind::RightBracket {
                assert(ins[i] is JNZ);
            } else {
                assert(ins[i] == simple_instruction(ts[i].kind));
            }
        }
    }
}

proof fn lemma_digit_value(d: nat)
    requires
        d < 16,
    ensures
        digit_value(hex_digit(d)) == d,
{
    let ds = seq!['0', '1', '2', '3', '4', '5', '6', '7', '8', '9', 'a', 'b', 'c', 'd', 'e', 'f'];
    assert(hex_digit(d) == ds[d as int]);
}

proof fn lemma_hex_digits_value(n: nat)
    ensures
        hex_value(hex_digits(n)) == n,
        hex_digits(n).len() >= 1,
    decreases n,
{
    if n < 16 {
        lemma_digit_value(n);
        assert(seq![hex_digit(n)].drop_last() =~= Seq::<char>::empty());
        assert(hex_value(Seq::<char>::empty()) == 0);
        assert(hex_value(seq![hex_digit(n)]) == hex_value(Seq::<char>::empty()) * 16 + digit_value(hex_digit(n)));
    } else {
        lemma_hex_digits_value(n / 16);
        lemma_digit_value(n % 16);
        let d = hex_digits(n / 16).push(hex_digit(n % 16));
        assert(d.drop_last() =~= hex_digits(n / 16));
        assert(d.last() == hex_digit(n % 16));
        assert(hex_value(d) == hex_value(hex_digits(n / 16)) * 16 + digit_value(hex_digit(n % 16)));
        assert(hex_digits(n) == d);
        assert(n == (n / 16) * 16 + n % 16) by (nonlinear_arith);
    }
}

proof fn lemma_leading_zeros(z: Seq<char>, d: Seq<char>)
    requires
        forall|a: int| 0 <= a < z.len() ==> z[a] == '0',
    ensures
        hex_value(z + d) == hex_value(d),
    decreases z.len() + d.len(),
{
    if d.len() == 0 {
        assert(z + d =~= z);
        if z.len() > 0 {
            lemma_leading_zeros(z.drop_last(), d);
            assert(z.drop_last() + d =~= z.drop_last());
        }
    } else {
        lemma_leading_zeros(z, d.drop_last());
        assert((z + d).drop_last() =~= z + d.drop_last());
    }
}

/// The padded hexadecimal text of a number has at least eight digits and denotes it.
proof fn lemma_hex_word_value(n: nat)
    ensures
        hex_value(hex_word_spec(n)) == n,
        hex_word_spec(n).len() >= 8,
{
    lemma_hex_digits_value(n);
    let d = hex_digits(n);
    if d.len() < 8 {
        lemma_leading_zeros(Seq::new((8 - d.len()) as nat, |i: int| '0'), d);
    }
}

/// Different instructions have different texts where one of them is a jump.
proof fn lemma_jump_text_unique(x: Instruction, y: Instruction)
    requires
        y is JZ || y is JNZ,
        text_of(x) == text_of(y),
    ensures
        x == y,
{
    reveal_strlit("incp");
    reveal_strlit("decp");
    reveal_strlit("incd");
    reveal_strlit("decd");
    reveal_strlit("rd");
    reveal_strlit("wr");
    reveal_strlit("exit");
    reveal_strlit("jz 0x");
    reveal_strlit("jnz 0x");
    let ty = text_of(y);
    match y {
        Instruction::JZ(t) => {
            lemma_hex_word_value(t as nat);
            assert(ty.len() >= 13);
            assert(ty[1] == 'z');
            match x {
                Instruction::JZ(u) => {
                    lemma_hex_word_value(u as nat);
                    assert(text_of(x).subrange(5, text_of(x).len() as int) =~= hex_word_spec(u as nat));
                    assert(ty.subrange(5, ty.len() as int) =~= hex_word_spec(t as nat));
                },
                Instruction::JNZ(u) => {
                    assert(text_of(x)[1] == 'n');
                },
                _ => {},
            }
        },
        Instruction::JNZ(t) => {
            lemma_hex_word_value(t as nat);
            assert(ty.len() >= 14);
            assert(ty[1] == 'n');
            match x {
                Instruction::JNZ(u) => {
                    lemma_hex_word_value(u as nat);
                    assert(text_of(x).subrange(6, text_of(x).len() as int) =~= hex_word_spec(u as nat));
                    assert(ty.subrange(6, ty.len() as int) =~= hex_word_spec(t as nat));
                },
                Instruction::JZ(u) => {
                    assert(text_of(x)[1] == 'z');
                },
                _ => {},
            }
        },
        _ => {},
    }
}

/// Two disassembly lines at one address are equal only where their texts are.
proof fn lemma_dump_line_text(a: nat, x: Instruction, y: Instruction)
    requires
        dump_line(a, x) == dump_line(a, y),
    ensures
        text_of(x) == text_of(y),
{
    let p = "0x"@ + hex_word_spec(a) + ": "@;
    let lx = dump_line(a, x);
    let ly = dump_line(a, y);
    assert(lx =~= p + text_of(x) + "\n"@);
    assert(ly =~= p + text_of(y) + "\n"@);
    assert(lx.len() == ly.len());
    assert(lx.subrange(p.len() as int, (p.len() + text_of(x).len()) as int) =~= text_of(x));
    assert(ly.subrange(p.len() as int, (p.len() + text_of(y).len()) as int) =~= text_of(y));
}

/// The disassembly gives back the bracket structure of the source: the line at `i` reads
/// `jz` to just past `j` and the line at `j` reads `jnz` back to `i` exactly when the `]` at
/// `j` closes the `[` at `i`.
pub proof fn lemma_disassembly_round_trip(ts: Seq<Token>, ins: Seq<Instruction>, i: int, j: int)
    requires
        balanced(ts),
        compiled_from(ts, ins),
        program_wf(ins),
        0 <= i < ts.len(),
        0 <= j < ts.len(),
    ensures
        (dump_line(i as nat, ins[i]) == dump_line(i as nat, Instruction::JZ((j + 1) as usize))
            && dump_line(j as nat, ins[j]) == dump_line(j as nat, Instruction::JNZ(i as usize)))
            <==> bracket_pair(ts, i, j),
{
    lemma_jump_pairs_round_trip(ts, ins, i, j);
    let jz = Instruction::JZ((j + 1) as usize);
    let jnz = Instruction::JNZ(i as usize);
    if dump_line(i as nat, ins[i]) == dump_line(i as nat, jz) && dump_line(j as nat, ins[j])
        == dump_line(j as nat, jnz) {
        lemma_dump_line_text(i as nat, ins[i], jz);
        lemma_jump_text_unique(ins[i], jz);
        lemma_dump_line_text(j as nat, ins[j], jnz);
        lemma_jump_text_unique(ins[j], jnz);
    }
}

impl Instruction {
    /// The canonical text: `incp`, `decp`, `incd`, `decd`, `rd`, `wr`, `jz 0x...`,
    /// `jnz 0x...` or `exit`.
    pub fn to_text(&self) -> (r: String)
        ensures
            r@ == text_of(*self),
    {
        match *self {
            Instruction::IncPtr => String::from_str("incp"),
            Instruction::DecPtr => String::from_str("decp"),
            Instruction::IncData => String::from_str("incd"),
            Instruction::DecData => String::from_str("decd"),
            Instruction::Input => String::from_str("rd"),
            Instruction::Output => String::from_str("wr"),
            Instruction::JZ(addr) => String::from_str("jz 0x").concat(hex_word(addr).as_str()),
            Instruction::JNZ(addr) => String::from_str("jnz 0x").concat(hex_word(addr).as_str()),
            Instruction::Exit => String::from_str("exit"),
        }
    }
}

impl Program {
    /// The program of an empty source: a lone `Exit`.
    pub fn new() -> (p: Program)
        ensures
            p@ == seq![Instruction::Exit],
            program_wf(p@),
    {
        let p = Program { instructions: vec![Instruction::Exit] };
        assert(p@ =~= seq![Instruction::Exit]);
        p
    }

    /// Scans and compiles a source text.
    pub fn compile(source: &str) -> (r: Result<Program, CompileError>)
        ensures
            match scan_spec(source@) {
                Ok(ts) => compile_outcome(ts, r),
                Err(e) => r == Err::<Program, CompileError>(CompileError::Lex(e)),
            },
    {
        match scan(source) {
            Ok(tokens) => Program::compile_tokens(&tokens),
            Err(e) => Err(CompileError::Lex(e)),
        }
    }

    /// The instruction at `addr`.
    pub fn instruction(&self, addr: usize) -> (r: &Instruction)
        requires
            addr < self@.len(),
        ensures
            *r == self@[addr as int],
    {
        &self.instructions[addr]
    }

    /// The number of instructions, the final `Exit` included.
    pub fn len(&self) -> (r: usize)
        ensures
            r == self@.len(),
    {
        self.instructions.len()
    }

    /// Compiles a token sequence: one instruction per token, each bracket resolved to the
    /// address just past its partner (`[`) or of its partner (`]`), and a final `Exit`.
    pub fn compile_tokens(tokens: &Vec<Token>) -> (r: Result<Program, CompileError>)
        ensures
            compile_outcome(tokens@, r),
    {
        let ghost ts = tokens@;
        let mut instructions: Vec<Instruction> = Vec::new();
        let mut stack: Vec<usize> = Vec::new();
        let n = tokens.len();
        let mut k: usize = 0;
        while k < n
            invariant
                ts == tokens@,
                n == ts.len(),
                k <= n,
                instructions.len() == k,
                stack@.map_values(|x: usize| x as int) == open_stack(ts, k as int),
                forall|q: int| 0 <= q < k ==> !unmatched_close_at(ts, q),
                forall|q: int|
                    0 <= q < k && !is_bracket(#[trigger] ts[q].kind) ==> instructions@[q]
                        == simple_instruction(ts[q].kind),
                forall|j: int|
                    0 <= j < k && ts[j].kind == TokenKind::RightBracket ==> #[trigger] instructions@[j]
                        == Instruction::JNZ(open_stack(ts, j).last() as usize),
                forall|i: int|
                    0 <= i < k && ts[i].kind == TokenKind::LeftBracket ==> {
                        &&& #[trigger] instructions@[i] is JZ
                        &&& !open_stack(ts, k as int).contains(i) ==> {
                            &&& 1 <= instructions@[i]->JZ_0 <= k
                            &&& bracket_pair(ts, i, instructions@[i]->JZ_0 - 1)
                        }
                    },
            decreases n - k,
        {
            proof {
                lemma_open_stack(ts, k as int);
                lemma_open_stack(ts, k as int + 1);
            }
            let ghost before = open_stack(ts, k as int);
            let kind = tokens[k].kind;
            let instruction = match kind {
                TokenKind::RightBrace => Instruction::IncPtr,
                TokenKind::LeftBrace => Instruction::DecPtr,
                TokenKind::Plus => Instruction::IncData,
                TokenKind::Minus => Instruction::DecData,
                TokenKind::Dot => Instruction::Output,
                TokenKind::Comma => Instruction::Input,
                TokenKind::LeftBracket => {
                    stack.push(k);
                    Instruction::JZ(0)
                },
                TokenKind::RightBracket => {
                    match stack.pop() {
                        Some(open) => {
                            proof {
                                assert(before.len() > 0);
                                assert(open as int == before.last());
                                assert(bracket_pair(ts, open as int, k as int));
                            }
                            instructions.set(open, Instruction::JZ(k + 1));
                            Instruction::JNZ(open)
                        },
                        None => {
                            proof {
                                assert(unmatched_close_at(ts, k as int));
                                assert(first_unmatched_close(ts, k as int));
                            }
                            return Err(CompileError::UnmatchedClose(tokens[k].row, tokens[k].col));
                        },
                    }
                },
            };
            let ghost prev_ins = instructions@;
            instructions.push(instruction);
            proof {
                let after = open_stack(ts, k as int + 1);
                assert(stack@.map_values(|x: usize| x as int) =~= after);
                assert forall|i: int|
                    0 <= i < k + 1 && ts[i].kind == TokenKind::LeftBracket implies {
                        &&& #[trigger] instructions@[i] is JZ
                        &&& !after.contains(i) ==> {
                            &&& 1 <= instructions@[i]->JZ_0 <= k + 1
                            &&& bracket_pair(ts, i, instructions@[i]->JZ_0 - 1)
                        }
                    } by {
                    if i < k {
                        if kind == TokenKind::RightBracket {
                            let open = before.last();
                            if i != open && !after.contains(i) {
                                if before.contains(i) {
                                    let a = choose|a: int| 0 <= a < before.len() && before[a] == i;
                                    assert(a != before.len() - 1);
                                    assert(after[a] == i);
                                }
                            }
                        } else if kind == TokenKind::LeftBracket {
                            if !after.contains(i) {
                                if before.contains(i) {
                                    let a = choose|a: int| 0 <= a < before.len() && before[a] == i;
                                    assert(after[a] == i);
                                }
                            }
                        }
                    } else {
                        assert(after.last() == k);
                        assert(after.contains(i));
                    }
                }
            }
            k = k + 1;
        }
        proof {
            lemma_open_stack(ts, n as int);
        }
        if stack.len() > 0 {
            let mut ps: Vec<(usize, usize)> = Vec::new();
            let mut m: usize = 0;
            while m < stack.len()
                invariant
                    ts == tokens@,
                    n == ts.len(),
                    m <= stack.len(),
                    stack@.map_values(|x: usize| x as int) == open_stack(ts, n as int),
                    forall|a: int|
                        0 <= a < open_stack(ts, n as int).len() ==> 0 <= #[trigger] open_stack(
                            ts,
                            n as int,
                        )[a] < n,
                    ps@ == positions_of(ts, open_stack(ts, n as int).take(m as int)),
                decreases stack.len() - m,
            {
                let a = stack[m];
                assert(open_stack(ts, n as int)[m as int] == a as int);
                ps.push((tokens[a].row, tokens[a].col));
                proof {
                    assert(open_stack(ts, n as int).take(m as int + 1) =~= open_stack(
                        ts,
                        n as int,
                    ).take(m as int).push(a as int));
                    assert(ps@ =~= positions_of(ts, open_stack(ts, n as int).take(m as int + 1)));
                }
                m = m + 1;
            }
            assert(open_stack(ts, n as int).take(m as int) =~= open_stack(ts, n as int));
            return Err(CompileError::UnmatchedOpen(ps));
        }
        instructions.push(Instruction::Exit);
        let p = Program { instructions };
        proof {
            assert(p@.len() == p.instructions.len());
            assert(open_stack(ts, n as int).len() == 0);
            assert(forall|i: int| 0 <= i < n ==> !open_stack(ts, n as int).contains(i));
            assert(compiled_from(ts, p@));
            assert forall|q: int| 0 <= q < p@.len() implies match #[trigger] p@[q] {
                Instruction::JZ(t) => t < p@.len(),
                Instruction::JNZ(t) => t < p@.len(),
                _ => true,
            } by {
                if q < n {
                    if ts[q].kind == TokenKind::RightBracket {
                        lemma_open_stack(ts, q);
                        assert(!unmatched_close_at(ts, q));
                        let os = open_stack(ts, q);
                        assert(0 <= os[os.len() - 1] < q);
                        assert(p@[q] == Instruction::JNZ(os.last() as usize));
                    } else if ts[q].kind == TokenKind::LeftBracket {
                        assert(p@[q] is JZ);
                    } else {
                        assert(p@[q] == simple_instruction(ts[q].kind));
                    }
                } else {
                    assert(p@[q] == Instruction::Exit);
                }
            }
        }
        Ok(p)
    }

    /// The disassembly: a line `0xAAAAAAAA: <text>` for each instruction, in order.
    pub fn dump(&self) -> (r: String)
        ensures
            r@ == dump_spec(self@, self@.len() as int),
    {
        let mut out = String::new();
        let mut k: usize = 0;
        while k < self.instructions.len()
            invariant
                k <= self.instructions.len(),
                out@ == dump_spec(self@, k as int),
            decreases self.instructions.len() - k,
        {
            out.append("0x");
            out.append(hex_word(k).as_str());
            out.append(": ");
            out.append(self.instructions[k].to_text().as_str());
            out.append("\n");
            k = k + 1;
        }
        out
    }
}

} // verus!
