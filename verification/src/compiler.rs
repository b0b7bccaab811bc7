//! The single-pass compiler.
//!
//! A Pratt parser drives compilation: it walks the token stream once and
//! emits bytecode into a chunk as it goes, resolving variables against a
//! stack of lexically scoped locals and patching forward jumps as their
//! targets become known.  Compile errors are collected as structured
//! diagnostics; the first error enters panic mode, which suppresses
//! further diagnostics until the parser resynchronises at a statement
//! boundary.

use vstd::prelude::*;

use crate::chunk::Chunk;
use crate::chunk::Constant;
use crate::chunk::OpCode;
use crate::chunk::chunk_start_ok;
use crate::chunk::is_boundary;
use crate::chunk::spec_has_u8_operand;
use crate::chunk::spec_instr_size;
use crate::chunk::spec_is_forward_jump;
use crate::chunk::spec_opcode_value;
use crate::chunk::spec_takes_constant;
use crate::scanner::Token;
use crate::scanner::TokenType;
use crate::scanner::copy_range;

verus! {

/// Binding strength, lowest to highest.
#[derive(Clone, Copy, Debug, PartialEq, Eq, Structural)]
pub enum Precedence {
    NoPrec,
    Assignment,
    Or,
    And,
    Equality,
    Comparison,
    Term,
    Factor,
    Unary,
    Call,
    Primary,
}

/// The numeric rank of a precedence level.
pub open spec fn spec_prec_value(p: Precedence) -> int {
    match p {
        Precedence::NoPrec => 0,
        Precedence::Assignment => 1,
        Precedence::Or => 2,
        Precedence::And => 3,
        Precedence::Equality => 4,
        Precedence::Comparison => 5,
        Precedence::Term => 6,
        Precedence::Factor => 7,
        Precedence::Unary => 8,
        Precedence::Call => 9,
        Precedence::Primary => 10,
    }
}

/// The level one step above `p` (`Primary` wraps around to `NoPrec`).
pub open spec fn spec_prec_next(p: Precedence) -> Precedence {
    match p {
        Precedence::NoPrec => Precedence::Assignment,
        Precedence::Assignment => Precedence::Or,
        Precedence::Or => Precedence::And,
        Precedence::And => Precedence::Equality,
        Precedence::Equality => Precedence::Comparison,
        Precedence::Comparison => Precedence::Term,
        Precedence::Term => Precedence::Factor,
        Precedence::Factor => Precedence::Unary,
        Precedence::Unary => Precedence::Call,
        Precedence::Call => Precedence::Primary,
        Precedence::Primary => Precedence::NoPrec,
    }
}

fn prec_value(p: Precedence) -> (r: u8)
    ensures
        r == spec_prec_value(p),
{
    match p {
        Precedence::NoPrec => 0,
        Precedence::Assignment => 1,
        Precedence::Or => 2,
        Precedence::And => 3,
        Precedence::Equality => 4,
        Precedence::Comparison => 5,
        Precedence::Term => 6,
        Precedence::Factor => 7,
        Precedence::Unary => 8,
        Precedence::Call => 9,
        Precedence::Primary => 10,
    }
}

impl Precedence {
    /// The next-higher binding strength.
    pub fn next(&self) -> (r: Precedence)
        ensures
            r == spec_prec_next(*self),
    {
        match *self {
            Precedence::NoPrec => Precedence::Assignment,
            Precedence::Assignment => Precedence::Or,
            Precedence::Or => Precedence::And,
            Precedence::And => Precedence::Equality,
            Precedence::Equality => Precedence::Comparison,
            Precedence::Comparison => Precedence::Term,
            Precedence::Term => Precedence::Factor,
            Precedence::Factor => Precedence::Unary,
            Precedence::Unary => Precedence::Call,
            Precedence::Call => Precedence::Primary,
            Precedence::Primary => Precedence::NoPrec,
        }
    }
}

/// Which prefix handler a token kind selects.
#[derive(Clone, Copy, Debug, PartialEq, Eq, Structural)]
pub enum PrefixFn {
    PfNone,
    PfGrouping,
    PfUnary,
    PfVariable,
    PfString,
    PfNumber,
    PfLiteral,
}

/// Which infix handler a token kind selects.
#[derive(Clone, Copy, Debug, PartialEq, Eq, Structural)]
pub enum InfixFn {
    InfNone,
    InfBinary,
    InfAnd,
    InfOr,
}

/// One row of the Pratt dispatch table.
#[derive(Clone, Copy, Debug, PartialEq, Eq, Structural)]
pub struct ParseRule {
    pub prefix: PrefixFn,
    pub infix: InfixFn,
    pub precedence: Precedence,
}

/// The Pratt dispatch table, as a function from token kind to its row.
pub open spec fn spec_get_rule(tt: TokenType) -> ParseRule {
    match tt {
        TokenType::LeftParen => ParseRule {
            prefix: PrefixFn::PfGrouping,
            infix: InfixFn::InfNone,
            precedence: Precedence::NoPrec,
        },
        TokenType::Minus => ParseRule {
            prefix: PrefixFn::PfUnary,
            infix: InfixFn::InfBinary,
            precedence: Precedence::Term,
        },
        TokenType::Plus => ParseRule {
            prefix: PrefixFn::PfNone,
            infix: InfixFn::InfBinary,
            precedence: Precedence::Term,
        },
        TokenType::Slash => ParseRule {
            prefix: PrefixFn::PfNone,
            infix: InfixFn::InfBinary,
            precedence: Precedence::Factor,
        },
        TokenType::Star => ParseRule {
            prefix: PrefixFn::PfNone,
            infix: InfixFn::InfBinary,
            precedence: Precedence::Factor,
        },
        TokenType::Bang => ParseRule {
            prefix: PrefixFn::PfUnary,
            infix: InfixFn::InfNone,
            precedence: Precedence::NoPrec,
        },
        TokenType::BangEqual => ParseRule {
            prefix: PrefixFn::PfNone,
            infix: InfixFn::InfBinary,
            precedence: Precedence::Equality,
        },
        TokenType::EqualEqual => ParseRule {
            prefix: PrefixFn::PfNone,
            infix: InfixFn::InfBinary,
            precedence: Precedence::Equality,
        },
        TokenType::Greater => ParseRule {
            prefix: PrefixFn::PfNone,
            infix: InfixFn::InfBinary,
            precedence: Precedence::Comparison,
        },
        TokenType::GreaterEqual => ParseRule {
            prefix: PrefixFn::PfNone,
            infix: InfixFn::InfBinary,
            precedence: Precedence::Comparison,
        },
        TokenType::Less => ParseRule {
            prefix: PrefixFn::PfNone,
            infix: InfixFn::InfBinary,
            precedence: Precedence::Comparison,
        },
        TokenType::LessEqual => ParseRule {
            prefix: PrefixFn::PfNone,
            infix: InfixFn::InfBinary,
            precedence: Precedence::Comparison,
        },
        TokenType::Identifier => ParseRule {
            prefix: PrefixFn::PfVariable,
            infix: InfixFn::InfNone,
            precedence: Precedence::NoPrec,
        },
        TokenType::String => ParseRule {
            prefix: PrefixFn::PfString,
            infix: InfixFn::InfNone,
            precedence: Precedence::NoPrec,
        },
        TokenType::Number => ParseRule {
            prefix: PrefixFn::PfNumber,
            infix: InfixFn::InfNone,
            precedence: Precedence::NoPrec,
        },
        TokenType::And => ParseRule {
            prefix: PrefixFn::PfNone,
            infix: InfixFn::InfAnd,
            precedence: Precedence::And,
        },
        TokenType::Or => ParseRule {
            prefix: PrefixFn::PfNone,
            infix: InfixFn::InfOr,
            precedence: Precedence::Or,
        },
        TokenType::False => ParseRule {
            prefix: PrefixFn::PfLiteral,
            infix: InfixFn::InfNone,
            precedence: Precedence::NoPrec,
        },
        TokenType::True => ParseRule {
            prefix: PrefixFn::PfLiteral,
            infix: InfixFn::InfNone,
            precedence: Precedence::NoPrec,
        },
        TokenType::Nil => ParseRule {
            prefix: PrefixFn::PfLiteral,
            infix: InfixFn::InfNone,
            precedence: Precedence::NoPrec,
        },
        _ => ParseRule {
            prefix: PrefixFn::PfNone,
            infix: InfixFn::InfNone,
            precedence: Precedence::NoPrec,
        },
    }
}

/// Look up the Pratt table row for a token kind.
fn get_rule(tt: TokenType) -> (r: ParseRule)
    ensures
        r == spec_get_rule(tt),
{
    match tt {
        TokenType::LeftParen => ParseRule {
            prefix: PrefixFn::PfGrouping,
            infix: InfixFn::InfNone,
            precedence: Precedence::NoPrec,
        },
        TokenType::Minus => ParseRule {
            prefix: PrefixFn::PfUnary,
            infix: InfixFn::InfBinary,
            precedence: Precedence::Term,
        },
        TokenType::Plus => ParseRule {
            prefix: PrefixFn::PfNone,
            infix: InfixFn::InfBinary,
            precedence: Precedence::Term,
        },
        TokenType::Slash => ParseRule {
            prefix: PrefixFn::PfNone,
            infix: InfixFn::InfBinary,
            precedence: Precedence::Factor,
        },
        TokenType::Star => ParseRule {
            prefix: PrefixFn::PfNone,
            infix: InfixFn::InfBinary,
            precedence: Precedence::Factor,
        },
        TokenType::Bang => ParseRule {
            prefix: PrefixFn::PfUnary,
            infix: InfixFn::InfNone,
            precedence: Precedence::NoPrec,
        },
        TokenType::BangEqual => ParseRule {
            prefix: PrefixFn::PfNone,
            infix: InfixFn::InfBinary,
            precedence: Precedence::Equality,
        },
        TokenType::EqualEqual => ParseRule {
            prefix: PrefixFn::PfNone,
            infix: InfixFn::InfBinary,
            precedence: Precedence::Equality,
        },
        TokenType::Greater => ParseRule {
            prefix: PrefixFn::PfNone,
            infix: InfixFn::InfBinary,
            precedence: Precedence::Comparison,
        },
        TokenType::GreaterEqual => ParseRule {
            prefix: PrefixFn::PfNone,
            infix: InfixFn::InfBinary,
            precedence: Precedence::Comparison,
        },
        TokenType::Less => ParseRule {
            prefix: PrefixFn::PfNone,
            infix: InfixFn::InfBinary,
            precedence: Precedence::Comparison,
        },
        TokenType::LessEqual => ParseRule {
            prefix: PrefixFn::PfNone,
            infix: InfixFn::InfBinary,
            precedence: Precedence::Comparison,
        },
        TokenType::Identifier => ParseRule {
            prefix: PrefixFn::PfVariable,
            infix: InfixFn::InfNone,
            precedence: Precedence::NoPrec,
        },
        TokenType::String => ParseRule {
            prefix: PrefixFn::PfString,
            infix: InfixFn::InfNone,
            precedence: Precedence::NoPrec,
        },
        TokenType::Number => ParseRule {
            prefix: PrefixFn::PfNumber,
            infix: InfixFn::InfNone,
            precedence: Precedence::NoPrec,
        },
        TokenType::And => ParseRule {
            prefix: PrefixFn::PfNone,
            infix: InfixFn::InfAnd,
            precedence: Precedence::And,
        },
        TokenType::Or => ParseRule {
            prefix: PrefixFn::PfNone,
            infix: InfixFn::InfOr,
            precedence: Precedence::Or,
        },
        TokenType::False => ParseRule {
            prefix: PrefixFn::PfLiteral,
            infix: InfixFn::InfNone,
            precedence: Precedence::NoPrec,
        },
        TokenType::True => ParseRule {
            prefix: PrefixFn::PfLiteral,
            infix: InfixFn::InfNone,
            precedence: Precedence::NoPrec,
        },
        TokenType::Nil => ParseRule {
            prefix: PrefixFn::PfLiteral,
            infix: InfixFn::InfNone,
            precedence: Precedence::NoPrec,
        },
        _ => ParseRule {
            prefix: PrefixFn::PfNone,
            infix: InfixFn::InfNone,
            precedence: Precedence::NoPrec,
        },
    }
}

/// A local variable: its name token and the scope depth at which it was
/// declared.  Depth `-1` marks a local that is declared but not yet
/// initialised, so that its initialiser cannot read it.
#[derive(Clone, Debug)]
pub struct Local {
    pub name: Token,
    pub depth: i32,
}

impl Local {
    /// A local with the given name and depth.
    pub fn new(name: Token, depth: i32) -> (l: Local)
        ensures
            l.name == name,
            l.depth == depth,
    {
        Local { name, depth }
    }
}

/// The scope state of the compiler: the stack of locals (at most 256) and
/// the current lexical depth (0 is the global scope).
#[derive(Debug)]
pub struct Compiler {
    pub locals: Vec<Local>,
    pub scope_depth: i32,
}

impl Compiler {
    /// A compiler at global scope with no locals.
    pub fn new() -> (c: Compiler)
        ensures
            c.locals@.len() == 0,
            c.scope_depth == 0,
    {
        Compiler { locals: Vec::new(), scope_depth: 0 }
    }
}

/// Where a compile diagnostic points: the end of the input, a lexeme, or
/// nowhere (the token was itself an error token, whose message says it
/// all).
#[derive(Clone, Debug)]
pub enum DiagLoc {
    AtEnd,
    AtLexeme(Vec<u8>),
    AtErrorToken,
}

/// One compile diagnostic: the 1-based source line, where it points, and
/// its message.
#[derive(Clone, Debug)]
pub struct Diagnostic {
    pub line: usize,
    pub loc: DiagLoc,
    pub message: &'static str,
}

/// The diagnostic a report about token `t` with text `message` must be:
/// its line is the token's; it points at the end of the input for `Eof`,
/// at nothing for an `Error` token (whose own message said it all), and at
/// the token's lexeme otherwise.
pub open spec fn spec_diag_for(d: Diagnostic, t: Token, message: Seq<char>) -> bool {
    &&& d.message@ == message
    &&& d.line == t.line
    &&& if t.token_type == TokenType::Eof {
        d.loc is AtEnd
    } else if t.token_type == TokenType::Error {
        d.loc is AtErrorToken
    } else {
        d.loc matches DiagLoc::AtLexeme(l) && l@ == t.lexeme@
    }
}

/// A token stream the parser accepts: it ends with a single `Eof` token,
/// which appears nowhere else (exactly what `scan_tokens` produces).
pub open spec fn tokens_ok(tokens: Seq<Token>) -> bool {
    &&& tokens.len() >= 1
    &&& tokens[tokens.len() - 1].token_type == TokenType::Eof
    &&& forall|i: int|
        0 <= i < tokens.len() - 1 ==> #[trigger] tokens[i].token_type != TokenType::Eof
}

/// Two tokens with the same kind, line, lexeme, number bits and message.
pub open spec fn token_like(a: Token, b: Token) -> bool {
    &&& a.token_type == b.token_type
    &&& a.line == b.line
    &&& a.lexeme@ == b.lexeme@
    &&& a.num == b.num
    &&& a.message@ == b.message@
}

/// Copy a token, lexeme included.
fn clone_token(t: &Token) -> (r: Token)
    ensures
        token_like(r, *t),
{
    let n = t.lexeme.len();
    let lexeme = copy_range(&t.lexeme, 0, n);
    proof {
        assert(lexeme@ =~= t.lexeme@);
    }
    Token { token_type: t.token_type, line: t.line, lexeme, num: t.num, message: t.message }
}

/// Bytewise equality of two byte vectors.
pub fn bytes_eq(a: &Vec<u8>, b: &Vec<u8>) -> (r: bool)
    ensures
        r <==> a@ == b@,
{
    if a.len() != b.len() {
        return false;
    }
    let n = a.len();
    let mut i: usize = 0;
    while i < n
        invariant
            n == a@.len(),
            a@.len() == b@.len(),
            i <= n,
            forall|j: int| 0 <= j < i ==> a@[j] == b@[j],
        decreases n - i,
    {
        if a[i] != b[i] {
            return false;
        }
        i = i + 1;
    }
    proof {
        assert(a@ =~= b@);
    }
    true
}

/// The new chunk still holds everything the old one held: the code has
/// only grown, every old instruction boundary is still one, every old code
/// byte outside a then-unpatched jump operand is unchanged, and any newly
/// unpatched operand lies in the newly emitted code.
pub open spec fn chunk_extends(pre: Chunk, post: Chunk) -> bool {
    &&& post.code@.len() >= pre.code@.len()
    &&& pre.constants@.len() <= post.constants@.len()
    &&& forall|i: int|
        0 <= i < pre.constants@.len() ==> post.constants@[i] == #[trigger] pre.constants@[i]
    &&& forall|t: int|
        is_boundary(pre.starts@, pre.code@.len() as int, t) ==> #[trigger] is_boundary(
            post.starts@,
            post.code@.len() as int,
            t,
        )
    &&& forall|i: int|
        0 <= i < pre.code@.len() && !pre.unpatched@.contains(i) && !pre.unpatched@.contains(i - 1)
            ==> post.code@[i] == #[trigger] pre.code@[i]
    &&& forall|i: int|
        #[trigger] post.unpatched@.contains(i) ==> pre.unpatched@.contains(i) || i
            >= pre.code@.len()
}

/// Appending one instruction extends the chunk.
proof fn lemma_extends_push(pre: Chunk, post: Chunk)
    requires
        post.starts@ == pre.starts@.push(pre.code@.len() as int),
        post.code@.len() > pre.code@.len(),
        pre.constants@.len() <= post.constants@.len(),
        forall|i: int|
            0 <= i < pre.constants@.len() ==> post.constants@[i] == #[trigger] pre.constants@[i],
        forall|i: int| 0 <= i < pre.code@.len() ==> post.code@[i] == #[trigger] pre.code@[i],
        forall|i: int|
            #[trigger] post.unpatched@.contains(i) ==> pre.unpatched@.contains(i) || i
                >= pre.code@.len(),
    ensures
        chunk_extends(pre, post),
{
    assert forall|t: int| is_boundary(pre.starts@, pre.code@.len() as int, t) implies #[trigger]
    is_boundary(post.starts@, post.code@.len() as int, t) by {
        crate::chunk::lemma_boundary_after_push(
            pre.starts@,
            pre.code@.len() as int,
            post.code@.len() as int,
            t,
        );
    }
}

/// A chunk whose code, starts and unpatched sites are unchanged extends
/// itself, however the pool grew.
proof fn lemma_extends_same(pre: Chunk, post: Chunk)
    requires
        post.starts@ == pre.starts@,
        post.code@ == pre.code@,
        pre.constants@.len() <= post.constants@.len(),
        forall|i: int|
            0 <= i < pre.constants@.len() ==> post.constants@[i] == #[trigger] pre.constants@[i],
        post.unpatched@ == pre.unpatched@,
    ensures
        chunk_extends(pre, post),
{
}

/// Patching a recorded jump site extends the chunk: only that site's two
/// operand bytes change, and the site leaves the unpatched set.
proof fn lemma_extends_patch(pre: Chunk, post: Chunk, site: int)
    requires
        post.starts@ == pre.starts@,
        post.code@.len() == pre.code@.len(),
        post.constants@ == pre.constants@,
        pre.unpatched@.contains(site),
        post.unpatched@ == pre.unpatched@.remove(site),
        forall|i: int|
            0 <= i < pre.code@.len() && i != site && i != site + 1 ==> post.code@[i]
                == #[trigger] pre.code@[i],
    ensures
        chunk_extends(pre, post),
{
}

/// Extension of chunks is transitive.
proof fn lemma_extends_trans(a: Chunk, b: Chunk, c: Chunk)
    requires
        chunk_extends(a, b),
        chunk_extends(b, c),
    ensures
        chunk_extends(a, c),
{
    assert forall|t: int| is_boundary(a.starts@, a.code@.len() as int, t) implies #[trigger]
    is_boundary(c.starts@, c.code@.len() as int, t) by {
        assert(is_boundary(b.starts@, b.code@.len() as int, t));
    }
    assert forall|i: int|
        0 <= i < a.code@.len() && !a.unpatched@.contains(i) && !a.unpatched@.contains(
            i - 1,
        ) implies c.code@[i] == #[trigger] a.code@[i] by {
        assert(b.code@[i] == a.code@[i]);
        assert(!b.unpatched@.contains(i));
        assert(!b.unpatched@.contains(i - 1));
        assert(c.code@[i] == b.code@[i]);
    }
}

/// True iff the local blocks the duplicate-name walk: an initialised local
/// of an enclosing, shallower scope.
pub open spec fn spec_local_is_shallower(l: Local, depth: int) -> bool {
    l.depth != -1 && l.depth < depth
}

/// True iff declaring `lex` at `depth` collides with a local already
/// declared in the current scope: some local with the same name is reached
/// by walking the stack from the top down before any shallower initialised
/// local stops the walk.
pub open spec fn spec_shadow_conflict(locals: Seq<Local>, depth: int, lex: Seq<u8>) -> bool {
    exists|j: int|
        0 <= j < locals.len() && #[trigger] locals[j].name.lexeme@ == lex
            && !spec_local_is_shallower(locals[j], depth) && (forall|k: int|
            j < k < locals.len() ==> !spec_local_is_shallower(#[trigger] locals[k], depth))
}

/// The bytes of a string literal's lexeme with its surrounding quotes
/// stripped (a lexeme too short to carry quotes yields nothing).
pub open spec fn spec_stripped(lex: Seq<u8>) -> Seq<u8> {
    if lex.len() >= 2 {
        lex.subrange(1, lex.len() - 1)
    } else {
        Seq::empty()
    }
}

/// The single opcode a literal keyword compiles to.
pub open spec fn spec_literal_op(tt: TokenType) -> OpCode {
    match tt {
        TokenType::False => OpCode::OpFalse,
        TokenType::True => OpCode::OpTrue,
        _ => OpCode::OpNil,
    }
}

/// The opcode(s) a binary operator token compiles to, as a condition on
/// the end of the emitted code: `!=`, `>=` and `<=` are the inverted
/// comparison followed by `NOT`; every other operator is one opcode.
pub open spec fn spec_binary_suffix_ok(tt: TokenType, code: Seq<u8>) -> bool {
    let n = code.len() as int;
    match tt {
        TokenType::Plus => n >= 1 && code[n - 1] == spec_opcode_value(OpCode::OpAdd),
        TokenType::Minus => n >= 1 && code[n - 1] == spec_opcode_value(OpCode::OpSubtract),
        TokenType::Star => n >= 1 && code[n - 1] == spec_opcode_value(OpCode::OpMultiply),
        TokenType::Slash => n >= 1 && code[n - 1] == spec_opcode_value(OpCode::OpDivide),
        TokenType::EqualEqual => n >= 1 && code[n - 1] == spec_opcode_value(OpCode::OpEqual),
        TokenType::Greater => n >= 1 && code[n - 1] == spec_opcode_value(OpCode::OpGreater),
        TokenType::Less => n >= 1 && code[n - 1] == spec_opcode_value(OpCode::OpLess),
        TokenType::BangEqual => n >= 2 && code[n - 2] == spec_opcode_value(OpCode::OpEqual)
            && code[n - 1] == spec_opcode_value(OpCode::OpNot),
        TokenType::GreaterEqual => n >= 2 && code[n - 2] == spec_opcode_value(OpCode::OpLess)
            && code[n - 1] == spec_opcode_value(OpCode::OpNot),
        TokenType::LessEqual => n >= 2 && code[n - 2] == spec_opcode_value(OpCode::OpGreater)
            && code[n - 1] == spec_opcode_value(OpCode::OpNot),
        _ => true,
    }
}

/// The keywords at which panic-mode recovery stops: each can start a
/// statement.
pub open spec fn spec_is_sync_point(tt: TokenType) -> bool {
    match tt {
        TokenType::Class
        | TokenType::Fun
        | TokenType::Var
        | TokenType::For
        | TokenType::If
        | TokenType::While
        | TokenType::Print
        | TokenType::Return => true,
        _ => false,
    }
}

/// True iff some live local bears this name.
pub open spec fn spec_resolves_local(locals: Seq<Local>, lex: Seq<u8>) -> bool {
    exists|j: int| 0 <= j < locals.len() && #[trigger] locals[j].name.lexeme@ == lex
}

/// Bytewise equality of two tokens' names.
fn identifiers_equal(a: &Token, b: &Token) -> (r: bool)
    ensures
        r <==> a.lexeme@ == b.lexeme@,
{
    bytes_eq(&a.lexeme, &b.lexeme)
}

/// The parser: the token stream and a cursor into it, the two-token
/// lookahead window, the scope state, the chunk under construction, and
/// the error state.
pub struct Parser {
    pub tokens: Vec<Token>,
    pub pos: usize,
    pub previous: Token,
    pub current: Token,
    pub compiler: Compiler,
    pub chunk: Chunk,
    pub had_error: bool,
    pub panic_mode: bool,
    pub diagnostics: Vec<Diagnostic>,
}

impl Parser {
    /// Parser well-formedness: the token stream is acceptable, the cursor
    /// is inside it, the chunk is well formed, the locals stack is within
    /// its capacity, and the error flags agree with the diagnostics.
    pub open spec fn wf(self) -> bool {
        &&& tokens_ok(self.tokens@)
        &&& self.pos < self.tokens@.len()
        &&& self.chunk.wf()
        &&& self.compiler.locals@.len() <= 256
        &&& self.compiler.scope_depth >= 0
        &&& (self.had_error <==> self.diagnostics@.len() > 0)
        &&& (self.panic_mode ==> self.had_error)
    }

    /// Once the lookahead has reached `Eof`, the cursor rests on the final
    /// token of the stream: the whole input has been consumed.
    pub open spec fn at_end_ok(self) -> bool {
        self.current.token_type == TokenType::Eof ==> self.pos == self.tokens@.len() - 1
    }

    /// How much input is left: unread tokens, plus one if the lookahead
    /// token is not yet `Eof`.  Every parsing step keeps this from
    /// growing, and consuming a token shrinks it.
    pub open spec fn rem(self) -> int {
        self.tokens@.len() - self.pos + if self.current.token_type == TokenType::Eof {
            0int
        } else {
            1int
        }
    }

    /// A parser over the given token stream, with an empty chunk.
    pub fn new(tokens: Vec<Token>) -> (p: Parser)
        requires
            tokens_ok(tokens@),
        ensures
            p.wf(),
            p.tokens == tokens,
            p.pos == 0,
            p.chunk.code@.len() == 0,
            p.chunk.constants@.len() == 0,
            p.chunk.unpatched@ == Set::<int>::empty(),
            p.compiler.locals@.len() == 0,
            p.compiler.scope_depth == 0,
            !p.had_error,
            !p.panic_mode,
            p.diagnostics@.len() == 0,
            p.current.token_type == TokenType::Eof,
            p.current.line == 0,
            p.previous.token_type == TokenType::Eof,
            p.previous.line == 0,
    {
        Parser {
            tokens,
            pos: 0,
            previous: Token::new(TokenType::Eof, 0, Vec::new()),
            current: Token::new(TokenType::Eof, 0, Vec::new()),
            compiler: Compiler::new(),
            chunk: Chunk::new(),
            had_error: false,
            panic_mode: false,
            diagnostics: Vec::new(),
        }
    }

    /// What every parsing step guarantees: well-formedness is kept, the
    /// token stream is untouched, no input reappears, the chunk only
    /// grows (and keeps its boundaries), no jump is left newly unpatched,
    /// and an error once seen is never forgotten.
    pub open spec fn parse_step_ok(pre: Parser, post: Parser) -> bool {
        &&& post.wf()
        &&& post.tokens@ == pre.tokens@
        &&& post.rem() <= pre.rem()
        &&& chunk_extends(pre.chunk, post.chunk)
        &&& post.chunk.unpatched@ == pre.chunk.unpatched@
        &&& (pre.had_error ==> post.had_error)
        &&& (pre.at_end_ok() ==> post.at_end_ok())
    }

    /// A parsing step that stays within a single expression: the scope
    /// state is untouched as well.
    pub open spec fn expr_step_ok(pre: Parser, post: Parser) -> bool {
        &&& Parser::parse_step_ok(pre, post)
        &&& post.compiler == pre.compiler
    }

    /// Record a diagnostic for the token the parser is looking at, unless
    /// panic mode already suppresses diagnostics.  `at_current` selects
    /// the lookahead token instead of the previous one.
    fn error_at(&mut self, at_current: bool, message: &'static str)
        requires
            old(self).wf(),
        ensures
            final(self).wf(),
            final(self).tokens@ == old(self).tokens@,
            final(self).pos == old(self).pos,
            final(self).current == old(self).current,
            final(self).previous == old(self).previous,
            final(self).compiler == old(self).compiler,
            final(self).chunk == old(self).chunk,
            final(self).had_error,
            final(self).panic_mode,
            final(self).rem() == old(self).rem(),
            old(self).panic_mode ==> final(self).diagnostics == old(self).diagnostics,
            !old(self).panic_mode ==> final(self).diagnostics@.len() == old(self).diagnostics@.len() + 1 && final(self).diagnostics@ == old(self).diagnostics@.push(
                final(self).diagnostics@.last(),
            ) && spec_diag_for(
                final(self).diagnostics@.last(),
                if at_current {
                    old(self).current
                } else {
                    old(self).previous
                },
                message@,
            ),
    {
        if self.panic_mode {
            return ;
        }
        self.panic_mode = true;
        self.had_error = true;
        let line = if at_current {
            self.current.line
        } else {
            self.previous.line
        };
        let kind = if at_current {
            self.current.token_type
        } else {
            self.previous.token_type
        };
        let loc = if kind == TokenType::Eof {
            DiagLoc::AtEnd
        } else if kind == TokenType::Error {
            DiagLoc::AtErrorToken
        } else {
            let lex = if at_current {
                copy_range(&self.current.lexeme, 0, self.current.lexeme.len())
            } else {
                copy_range(&self.previous.lexeme, 0, self.previous.lexeme.len())
            };
            proof {
                if at_current {
                    assert(lex@ =~= self.current.lexeme@);
                } else {
                    assert(lex@ =~= self.previous.lexeme@);
                }
            }
            DiagLoc::AtLexeme(lex)
        };
        let ghost before = self.diagnostics@;
        self.diagnostics.push(Diagnostic { line, loc, message });
        proof {
            assert(self.diagnostics@ =~= before.push(self.diagnostics@.last()));
        }
    }

    /// Report an error at the previous token.
    fn error(&mut self, message: &'static str)
        requires
            old(self).wf(),
        ensures
            final(self).wf(),
            final(self).tokens@ == old(self).tokens@,
            final(self).pos == old(self).pos,
            final(self).current == old(self).current,
            final(self).previous == old(self).previous,
            final(self).compiler == old(self).compiler,
            final(self).chunk == old(self).chunk,
            final(self).had_error,
            final(self).rem() == old(self).rem(),
            old(self).panic_mode ==> final(self).diagnostics == old(self).diagnostics,
            !old(self).panic_mode ==> final(self).diagnostics@.len() == old(self).diagnostics@.len() + 1 && spec_diag_for(
                final(self).diagnostics@.last(),
                old(self).previous,
                message@,
            ),
    {
        self.error_at(false, message);
    }

    /// Report an error at the lookahead token.
    fn error_at_current(&mut self, message: &'static str)
        requires
            old(self).wf(),
        ensures
            final(self).wf(),
            final(self).tokens@ == old(self).tokens@,
            final(self).pos == old(self).pos,
            final(self).current == old(self).current,
            final(self).previous == old(self).previous,
            final(self).compiler == old(self).compiler,
            final(self).chunk == old(self).chunk,
            final(self).had_error,
            final(self).rem() == old(self).rem(),
            old(self).panic_mode ==> final(self).diagnostics == old(self).diagnostics,
            !old(self).panic_mode ==> final(self).diagnostics@.len() == old(self).diagnostics@.len() + 1 && spec_diag_for(
                final(self).diagnostics@.last(),
                old(self).current,
                message@,
            ),
    {
        self.error_at(true, message);
    }

    /// Record the diagnostic an `Error` token carries (its message was
    /// written by the scanner; the report points at no lexeme).
    fn report_error_token(&mut self, line: usize, message: &'static str)
        requires
            old(self).wf(),
        ensures
            final(self).wf(),
            final(self).tokens@ == old(self).tokens@,
            final(self).pos == old(self).pos,
            final(self).current == old(self).current,
            final(self).previous == old(self).previous,
            final(self).compiler == old(self).compiler,
            final(self).chunk == old(self).chunk,
            final(self).had_error,
            final(self).panic_mode,
            final(self).rem() == old(self).rem(),
            old(self).panic_mode ==> final(self).diagnostics == old(self).diagnostics,
            !old(self).panic_mode ==> final(self).diagnostics@.len() == old(self).diagnostics@.len() + 1 && final(self).diagnostics@.last().message@ == message@
                && final(self).diagnostics@.last().line == line && final(self).diagnostics@.last().loc is AtErrorToken,
    {
        if self.panic_mode {
            return ;
        }
        self.panic_mode = true;
        self.had_error = true;
        self.diagnostics.push(Diagnostic { line, loc: DiagLoc::AtErrorToken, message });
    }

    fn token_at_pos_is_error(&self) -> (r: bool)
        requires
            self.wf(),
        ensures
            r == (self.tokens@[self.pos as int].token_type == TokenType::Error),
    {
        self.tokens[self.pos].token_type == TokenType::Error
    }

    /// Step to the next token: the lookahead becomes `previous`, and the
    /// next non-error token from the stream becomes the lookahead.  Error
    /// tokens are reported and skipped here, one diagnostic each.
    fn advance(&mut self)
        requires
            old(self).wf(),
        ensures
            final(self).wf(),
            final(self).tokens@ == old(self).tokens@,
            final(self).chunk == old(self).chunk,
            final(self).compiler == old(self).compiler,
            final(self).rem() <= old(self).rem(),
            old(self).current.token_type != TokenType::Eof ==> final(self).rem() < old(self).rem(),
            token_like(final(self).previous, old(self).current),
            final(self).current.token_type != TokenType::Error,
            old(self).had_error ==> final(self).had_error,
            final(self).at_end_ok(),
            old(self).pos == old(self).tokens@.len() - 1 ==> final(self).current.token_type
                == TokenType::Eof,
    {
        let ghost pre = *self;
        let prev = clone_token(&self.current);
        self.previous = prev;
        while self.token_at_pos_is_error()
            invariant
                self.wf(),
                self.tokens@ == pre.tokens@,
                self.chunk == pre.chunk,
                self.compiler == pre.compiler,
                self.pos >= pre.pos,
                token_like(self.previous, pre.current),
                self.current == pre.current,
                pre.had_error ==> self.had_error,
            decreases self.tokens@.len() - self.pos,
        {
            let line = self.tokens[self.pos].line;
            let message = self.tokens[self.pos].message;
            self.report_error_token(line, message);
            let n = self.tokens.len();
            proof {
                assert(self.tokens@[self.pos as int].token_type == TokenType::Error);
                assert(self.pos < n - 1);
            }
            self.pos = self.pos + 1;
        }
        let t = clone_token(&self.tokens[self.pos]);
        let n = self.tokens.len();
        if self.pos + 1 < n {
            self.pos = self.pos + 1;
        }
        proof {
            if t.token_type == TokenType::Eof {
                assert(self.tokens@[self.tokens@.len() - 1].token_type == TokenType::Eof);
            }
        }
        self.current = t;
    }

    /// True iff the lookahead token has the given kind.
    fn check(&self, tt: TokenType) -> (r: bool)
        ensures
            r == (self.current.token_type == tt),
    {
        self.current.token_type == tt
    }

    /// Consume the lookahead token iff it has the given kind.
    fn match_type(&mut self, tt: TokenType) -> (r: bool)
        requires
            old(self).wf(),
        ensures
            final(self).wf(),
            final(self).tokens@ == old(self).tokens@,
            final(self).chunk == old(self).chunk,
            final(self).compiler == old(self).compiler,
            final(self).rem() <= old(self).rem(),
            r == (old(self).current.token_type == tt),
            r && tt != TokenType::Eof ==> final(self).rem() < old(self).rem(),
            !r ==> *final(self) == *old(self),
            old(self).had_error ==> final(self).had_error,
            r ==> token_like(final(self).previous, old(self).current),
            old(self).at_end_ok() ==> final(self).at_end_ok(),
            r && tt == TokenType::Eof && old(self).at_end_ok() ==> final(self).current.token_type
                == TokenType::Eof && final(self).pos == final(self).tokens@.len() - 1,
    {
        if self.check(tt) {
            self.advance();
            true
        } else {
            false
        }
    }

    /// Consume the lookahead token, which must have the given kind;
    /// report `message` at it otherwise.
    fn consume(&mut self, tt: TokenType, message: &'static str)
        requires
            old(self).wf(),
        ensures
            final(self).wf(),
            final(self).tokens@ == old(self).tokens@,
            final(self).chunk == old(self).chunk,
            final(self).compiler == old(self).compiler,
            final(self).rem() <= old(self).rem(),
            old(self).had_error ==> final(self).had_error,
            old(self).at_end_ok() ==> final(self).at_end_ok(),
    {
        if self.check(tt) {
            self.advance();
        } else {
            self.error_at_current(message);
        }
    }

    /// Emit an operand-less instruction at the previous token's line.
    fn emit_op(&mut self, op: OpCode)
        requires
            old(self).wf(),
            spec_instr_size(op) == 1,
        ensures
            final(self).wf(),
            final(self).tokens@ == old(self).tokens@,
            final(self).pos == old(self).pos,
            final(self).current == old(self).current,
            final(self).previous == old(self).previous,
            final(self).compiler == old(self).compiler,
            final(self).had_error == old(self).had_error,
            final(self).panic_mode == old(self).panic_mode,
            final(self).diagnostics == old(self).diagnostics,
            final(self).rem() == old(self).rem(),
            chunk_extends(old(self).chunk, final(self).chunk),
            final(self).chunk.unpatched@ == old(self).chunk.unpatched@,
            final(self).chunk.constants@ == old(self).chunk.constants@,
            final(self).chunk.code@ == old(self).chunk.code@.push(spec_opcode_value(op)),
    {
        let ghost pre = *self;
        let line = self.previous.line;
        self.chunk.emit_op(op, line);
        proof {
            lemma_extends_push(pre.chunk, self.chunk);
        }
    }

    /// Emit an instruction with one inline byte operand at the previous
    /// token's line.
    fn emit_op_u8(&mut self, op: OpCode, operand: u8)
        requires
            old(self).wf(),
            spec_has_u8_operand(op),
            spec_takes_constant(op) ==> (operand as int) < old(self).chunk.constants@.len(),
        ensures
            final(self).wf(),
            final(self).tokens@ == old(self).tokens@,
            final(self).pos == old(self).pos,
            final(self).current == old(self).current,
            final(self).previous == old(self).previous,
            final(self).compiler == old(self).compiler,
            final(self).had_error == old(self).had_error,
            final(self).panic_mode == old(self).panic_mode,
            final(self).rem() == old(self).rem(),
            chunk_extends(old(self).chunk, final(self).chunk),
            final(self).chunk.unpatched@ == old(self).chunk.unpatched@,
            final(self).chunk.constants@ == old(self).chunk.constants@,
            final(self).chunk.code@.len() == old(self).chunk.code@.len() + 2,
            final(self).chunk.code@ == old(self).chunk.code@.push(spec_opcode_value(op)).push(
                operand,
            ),
    {
        let ghost pre = *self;
        let line = self.previous.line;
        self.chunk.emit_op_u8(op, operand, line);
        proof {
            lemma_extends_push(pre.chunk, self.chunk);
        }
    }

    /// Emit a forward jump with a placeholder distance; the returned site
    /// is patched later.
    fn emit_jump(&mut self, op: OpCode) -> (site: usize)
        requires
            old(self).wf(),
            spec_is_forward_jump(op),
        ensures
            final(self).wf(),
            final(self).tokens@ == old(self).tokens@,
            final(self).pos == old(self).pos,
            final(self).current == old(self).current,
            final(self).previous == old(self).previous,
            final(self).compiler == old(self).compiler,
            final(self).had_error == old(self).had_error,
            final(self).panic_mode == old(self).panic_mode,
            final(self).rem() == old(self).rem(),
            chunk_extends(old(self).chunk, final(self).chunk),
            final(self).chunk.unpatched@ == old(self).chunk.unpatched@.insert(site as int),
            final(self).chunk.constants@ == old(self).chunk.constants@,
            final(self).chunk.code@.len() == old(self).chunk.code@.len() + 3,
            final(self).chunk.code@ == old(self).chunk.code@.push(spec_opcode_value(op)).push(
                255,
            ).push(255),
            site == old(self).chunk.code@.len() + 1,
            !old(self).chunk.unpatched@.contains(site as int),
    {
        let ghost pre = *self;
        let line = self.previous.line;
        let site = self.chunk.emit_jump_op(op, line);
        proof {
            lemma_extends_push(pre.chunk, self.chunk);
            if pre.chunk.unpatched@.contains(site as int) {
                crate::chunk::lemma_unpatched_below_len(pre.chunk, site as int);
            }
        }
        site
    }

    /// Patch the forward jump at `site` to land at the current end of the
    /// code; report a compile error if the distance overflows 16 bits.
    fn patch_jump(&mut self, site: usize)
        requires
            old(self).wf(),
            old(self).chunk.unpatched@.contains(site as int),
        ensures
            final(self).wf(),
            final(self).tokens@ == old(self).tokens@,
            final(self).pos == old(self).pos,
            final(self).current == old(self).current,
            final(self).previous == old(self).previous,
            final(self).compiler == old(self).compiler,
            final(self).rem() == old(self).rem(),
            chunk_extends(old(self).chunk, final(self).chunk),
            final(self).chunk.unpatched@ == old(self).chunk.unpatched@.remove(site as int),
            final(self).chunk.constants@ == old(self).chunk.constants@,
            final(self).chunk.code@.len() == old(self).chunk.code@.len(),
            old(self).had_error ==> final(self).had_error,
            forall|i: int|
                0 <= i < old(self).chunk.code@.len() && i != site && i != site + 1
                    ==> final(self).chunk.code@[i] == #[trigger] old(self).chunk.code@[i],
            final(self).chunk.code@.len() - site - 2 <= 0xffff
                ==> crate::chunk::spec_jump_offset(final(self).chunk.code@, site - 1) == final(self).chunk.code@.len() - site - 2,
    {
        let ghost pre = *self;
        let fits = self.chunk.patch_jump(site);
        proof {
            lemma_extends_patch(pre.chunk, self.chunk, site as int);
        }
        if !fits {
            self.error("Too much code to jump over.");
        }
    }

    /// Emit a `LOOP` back to `loop_start`; report a compile error if the
    /// distance overflows 16 bits.
    fn emit_loop(&mut self, loop_start: usize)
        requires
            old(self).wf(),
            is_boundary(
                old(self).chunk.starts@,
                old(self).chunk.code@.len() as int,
                loop_start as int,
            ),
        ensures
            final(self).wf(),
            final(self).tokens@ == old(self).tokens@,
            final(self).pos == old(self).pos,
            final(self).current == old(self).current,
            final(self).previous == old(self).previous,
            final(self).compiler == old(self).compiler,
            final(self).rem() == old(self).rem(),
            chunk_extends(old(self).chunk, final(self).chunk),
            final(self).chunk.unpatched@ == old(self).chunk.unpatched@,
            final(self).chunk.constants@ == old(self).chunk.constants@,
            final(self).chunk.code@.len() == old(self).chunk.code@.len() + 3,
            final(self).chunk.code@[old(self).chunk.code@.len() as int] == spec_opcode_value(
                OpCode::OpLoop,
            ),
            forall|i: int|
                0 <= i < old(self).chunk.code@.len() ==> final(self).chunk.code@[i]
                    == #[trigger] old(self).chunk.code@[i],
            old(self).had_error ==> final(self).had_error,
    {
        let ghost pre = *self;
        let line = self.previous.line;
        let fits = self.chunk.emit_loop_op(loop_start, line);
        proof {
            lemma_extends_push(pre.chunk, self.chunk);
        }
        if !fits {
            self.error("Loop body too large.");
        }
    }

    /// Emit the `RETURN` that ends every chunk.
    fn emit_return(&mut self)
        requires
            old(self).wf(),
        ensures
            final(self).wf(),
            final(self).tokens@ == old(self).tokens@,
            final(self).pos == old(self).pos,
            final(self).current == old(self).current,
            final(self).previous == old(self).previous,
            final(self).compiler == old(self).compiler,
            final(self).had_error == old(self).had_error,
            final(self).rem() == old(self).rem(),
            chunk_extends(old(self).chunk, final(self).chunk),
            final(self).chunk.unpatched@ == old(self).chunk.unpatched@,
            final(self).chunk.code@ == old(self).chunk.code@.push(
                spec_opcode_value(OpCode::OpReturn),
            ),
    {
        self.emit_op(OpCode::OpReturn);
    }

    /// Intern a constant in the pool and return its index; report the
    /// compile error "Too many constants in one chunk." and return 0 when
    /// the pool is full.  Either way the result indexes the pool.
    fn make_constant(&mut self, val: Constant) -> (idx: u8)
        requires
            old(self).wf(),
        ensures
            final(self).wf(),
            final(self).tokens@ == old(self).tokens@,
            final(self).pos == old(self).pos,
            final(self).current == old(self).current,
            final(self).previous == old(self).previous,
            final(self).compiler == old(self).compiler,
            final(self).rem() == old(self).rem(),
            chunk_extends(old(self).chunk, final(self).chunk),
            final(self).chunk.unpatched@ == old(self).chunk.unpatched@,
            final(self).chunk.code@ == old(self).chunk.code@,
            (idx as int) < final(self).chunk.constants@.len(),
            old(self).had_error ==> final(self).had_error,
            old(self).chunk.constants@.len() < 256 ==> final(self).chunk.constants@ == old(self).chunk.constants@.push(val) && idx == old(self).chunk.constants@.len() && final(self).had_error == old(self).had_error && final(self).diagnostics == old(self).diagnostics,
    {
        let ghost pre = *self;
        let r = self.chunk.add_constant(val);
        proof {
            lemma_extends_same(pre.chunk, self.chunk);
        }
        match r {
            Some(idx) => idx,
            None => {
                self.error("Too many constants in one chunk.");
                0
            },
        }
    }

    /// Emit `CONSTANT idx` for a freshly interned constant: two bytes, the
    /// opcode and the pool index, which holds the given value whenever the
    /// pool had room (a full pool is the compile error "Too many constants
    /// in one chunk.").
    fn emit_constant(&mut self, val: Constant)
        requires
            old(self).wf(),
        ensures
            final(self).wf(),
            final(self).tokens@ == old(self).tokens@,
            final(self).pos == old(self).pos,
            final(self).current == old(self).current,
            final(self).previous == old(self).previous,
            final(self).compiler == old(self).compiler,
            final(self).rem() == old(self).rem(),
            chunk_extends(old(self).chunk, final(self).chunk),
            final(self).chunk.unpatched@ == old(self).chunk.unpatched@,
            old(self).had_error ==> final(self).had_error,
            final(self).chunk.code@.len() == old(self).chunk.code@.len() + 2,
            final(self).chunk.code@[old(self).chunk.code@.len() as int] == spec_opcode_value(
                OpCode::OpConstant,
            ),
            forall|i: int|
                0 <= i < old(self).chunk.code@.len() ==> final(self).chunk.code@[i]
                    == #[trigger] old(self).chunk.code@[i],
            old(self).chunk.constants@.len() < 256 ==> final(self).chunk.constants@[final(self).chunk.code@[old(self).chunk.code@.len() as int + 1] as int] == val && final(self).had_error
                == old(self).had_error,
    {
        let ghost pre = *self;
        let idx = self.make_constant(val);
        let ghost mid = *self;
        self.emit_op_u8(OpCode::OpConstant, idx);
        proof {
            assert(chunk_extends(pre.chunk, mid.chunk));
            assert(chunk_extends(mid.chunk, self.chunk));
            lemma_extends_trans(pre.chunk, mid.chunk, self.chunk);
        }
    }

    /// Enter a lexical scope.
    fn begin_scope(&mut self)
        requires
            old(self).wf(),
        ensures
            final(self).wf(),
            final(self).tokens@ == old(self).tokens@,
            final(self).pos == old(self).pos,
            final(self).current == old(self).current,
            final(self).previous == old(self).previous,
            final(self).chunk == old(self).chunk,
            final(self).compiler.locals == old(self).compiler.locals,
            final(self).had_error == old(self).had_error,
            final(self).rem() == old(self).rem(),
    {
        if self.compiler.scope_depth < i32::MAX {
            self.compiler.scope_depth = self.compiler.scope_depth + 1;
        }
    }

    fn locals_top_deeper(&self) -> (r: bool)
        ensures
            r == (self.compiler.locals@.len() > 0 && self.compiler.locals@[self.compiler.locals@.len()
                - 1].depth > self.compiler.scope_depth),
    {
        let n = self.compiler.locals.len();
        if n == 0 {
            false
        } else {
            self.compiler.locals[n - 1].depth > self.compiler.scope_depth
        }
    }

    /// Leave a lexical scope: the depth drops by one and every local
    /// deeper than the new depth is discarded from the top of the stack,
    /// with exactly one `POP` emitted per discarded local; the surviving
    /// locals are untouched.
    fn end_scope(&mut self)
        requires
            old(self).wf(),
        ensures
            final(self).wf(),
            final(self).tokens@ == old(self).tokens@,
            final(self).pos == old(self).pos,
            final(self).current == old(self).current,
            final(self).previous == old(self).previous,
            final(self).rem() == old(self).rem(),
            chunk_extends(old(self).chunk, final(self).chunk),
            final(self).chunk.unpatched@ == old(self).chunk.unpatched@,
            final(self).chunk.constants@ == old(self).chunk.constants@,
            final(self).had_error == old(self).had_error,
            final(self).compiler.scope_depth == if old(self).compiler.scope_depth > 0 {
                old(self).compiler.scope_depth - 1
            } else {
                0
            },
            final(self).compiler.locals@.len() <= old(self).compiler.locals@.len(),
            final(self).compiler.locals@ == old(self).compiler.locals@.take(
                final(self).compiler.locals@.len() as int,
            ),
            forall|j: int|
                final(self).compiler.locals@.len() <= j < old(self).compiler.locals@.len()
                    ==> #[trigger] old(self).compiler.locals@[j].depth > final(self).compiler.scope_depth,
            final(self).compiler.locals@.len() > 0 ==> final(self).compiler.locals@.last().depth <= final(self).compiler.scope_depth,
            final(self).chunk.code@.len() == old(self).chunk.code@.len() + (old(self).compiler.locals@.len() - final(self).compiler.locals@.len()),
            forall|i: int|
                old(self).chunk.code@.len() <= i < final(self).chunk.code@.len()
                    ==> #[trigger] final(self).chunk.code@[i] == spec_opcode_value(OpCode::OpPop),
            forall|i: int|
                0 <= i < old(self).chunk.code@.len() ==> #[trigger] final(self).chunk.code@[i]
                    == old(self).chunk.code@[i],
    {
        if self.compiler.scope_depth > 0 {
            self.compiler.scope_depth = self.compiler.scope_depth - 1;
        }
        let ghost entry = *self;
        proof {
            lemma_extends_same(entry.chunk, self.chunk);
            assert(entry.compiler.locals@ =~= entry.compiler.locals@.take(
                entry.compiler.locals@.len() as int,
            ));
        }
        while self.locals_top_deeper()
            invariant
                self.wf(),
                self.tokens@ == entry.tokens@,
                self.pos == entry.pos,
                self.current == entry.current,
                self.previous == entry.previous,
                chunk_extends(entry.chunk, self.chunk),
                self.chunk.unpatched@ == entry.chunk.unpatched@,
                self.chunk.constants@ == entry.chunk.constants@,
                self.had_error == entry.had_error,
                self.panic_mode == entry.panic_mode,
                self.diagnostics == entry.diagnostics,
                self.compiler.scope_depth == entry.compiler.scope_depth,
                self.compiler.locals@.len() <= entry.compiler.locals@.len(),
                self.compiler.locals@ == entry.compiler.locals@.take(
                    self.compiler.locals@.len() as int,
                ),
                forall|j: int|
                    self.compiler.locals@.len() <= j < entry.compiler.locals@.len()
                        ==> #[trigger] entry.compiler.locals@[j].depth
                        > entry.compiler.scope_depth,
                self.chunk.code@.len() == entry.chunk.code@.len() + (entry.compiler.locals@.len()
                    - self.compiler.locals@.len()),
                forall|i: int|
                    entry.chunk.code@.len() <= i < self.chunk.code@.len()
                        ==> #[trigger] self.chunk.code@[i] == spec_opcode_value(OpCode::OpPop),
                forall|i: int|
                    0 <= i < entry.chunk.code@.len() ==> #[trigger] self.chunk.code@[i]
                        == entry.chunk.code@[i],
            decreases self.compiler.locals@.len(),
        {
            let ghost before = *self;
            self.emit_op(OpCode::OpPop);
            let _ = self.compiler.locals.pop();
            proof {
                lemma_extends_trans(entry.chunk, before.chunk, self.chunk);
                assert(self.compiler.locals@ =~= entry.compiler.locals@.take(
                    self.compiler.locals@.len() as int,
                ));
            }
        }
    }

    /// Record a new local, declared but uninitialised (depth `-1`); report
    /// the compile error "Too many local variables in function.", leaving
    /// the locals unchanged, if 256 locals already exist.  No bytecode is
    /// emitted either way.
    fn add_local(&mut self, name: Token)
        requires
            old(self).wf(),
        ensures
            final(self).wf(),
            final(self).tokens@ == old(self).tokens@,
            final(self).pos == old(self).pos,
            final(self).current == old(self).current,
            final(self).previous == old(self).previous,
            final(self).chunk == old(self).chunk,
            final(self).compiler.scope_depth == old(self).compiler.scope_depth,
            final(self).rem() == old(self).rem(),
            old(self).had_error ==> final(self).had_error,
            old(self).compiler.locals@.len() >= 256 ==> final(self).compiler.locals == old(self).compiler.locals && final(self).had_error,
            old(self).compiler.locals@.len() < 256 ==> final(self).compiler.locals@.len() == old(self).compiler.locals@.len() + 1 && final(self).compiler.locals@ == old(self).compiler.locals@.push(final(self).compiler.locals@.last()) && final(self).compiler.locals@.last().depth == -1 && token_like(
                final(self).compiler.locals@.last().name,
                name,
            ) && final(self).had_error == old(self).had_error && final(self).diagnostics == old(self).diagnostics,
    {
        if self.compiler.locals.len() >= 256 {
            self.error("Too many local variables in function.");
            return ;
        }
        let local = Local::new(name, -1);
        let ghost before = self.compiler.locals@;
        self.compiler.locals.push(local);
        proof {
            assert(self.compiler.locals@ =~= before.push(self.compiler.locals@.last()));
        }
    }

    /// Mark the newest local as initialised: its depth becomes the current
    /// scope depth, every other local and the bytecode stay untouched.
    fn mark_initialized(&mut self)
        requires
            old(self).wf(),
        ensures
            final(self).wf(),
            final(self).tokens@ == old(self).tokens@,
            final(self).pos == old(self).pos,
            final(self).current == old(self).current,
            final(self).previous == old(self).previous,
            final(self).chunk == old(self).chunk,
            final(self).compiler.scope_depth == old(self).compiler.scope_depth,
            final(self).had_error == old(self).had_error,
            final(self).rem() == old(self).rem(),
            old(self).compiler.locals@.len() == 0 ==> final(self).compiler.locals == old(self).compiler.locals,
            old(self).compiler.locals@.len() > 0 ==> final(self).compiler.locals@.len() == old(self).compiler.locals@.len() && (forall|j: int|
                0 <= j < old(self).compiler.locals@.len() - 1 ==> final(self).compiler.locals@[j]
                    == #[trigger] old(self).compiler.locals@[j]) && final(self).compiler.locals@.last().depth == old(self).compiler.scope_depth && token_like(
                final(self).compiler.locals@.last().name,
                old(self).compiler.locals@.last().name,
            ),
    {
        let n = self.compiler.locals.len();
        if n > 0 {
            let d = self.compiler.scope_depth;
            let name = clone_token(&self.compiler.locals[n - 1].name);
            let replacement = Local::new(name, d);
            let _ = self.compiler.locals.pop();
            self.compiler.locals.push(replacement);
        }
    }

    /// Declare a local for the previous token's name: at global scope
    /// nothing happens (globals are late-bound); in a scope the name is
    /// checked against the locals of the current scope -- the compile
    /// error "Already a variable with this name in this scope." is
    /// reported exactly when one collides -- and then pushed as a local at
    /// depth `-1` (unless 256 locals already exist, itself an error).
    fn declare_variable(&mut self)
        requires
            old(self).wf(),
        ensures
            final(self).wf(),
            final(self).tokens@ == old(self).tokens@,
            final(self).pos == old(self).pos,
            final(self).current == old(self).current,
            final(self).previous == old(self).previous,
            final(self).chunk == old(self).chunk,
            final(self).compiler.scope_depth == old(self).compiler.scope_depth,
            final(self).rem() == old(self).rem(),
            old(self).had_error ==> final(self).had_error,
            old(self).compiler.scope_depth == 0 ==> *final(self) == *old(self),
            old(self).compiler.scope_depth > 0 ==> final(self).had_error == (old(self).had_error
                || spec_shadow_conflict(
                old(self).compiler.locals@,
                old(self).compiler.scope_depth as int,
                old(self).previous.lexeme@,
            ) || old(self).compiler.locals@.len() >= 256),
            old(self).compiler.scope_depth > 0 && old(self).compiler.locals@.len() < 256 ==> final(self).compiler.locals@.len() == old(self).compiler.locals@.len() + 1 && final(self).compiler.locals@ == old(self).compiler.locals@.push(
                final(self).compiler.locals@.last(),
            ) && final(self).compiler.locals@.last().depth == -1 && token_like(
                final(self).compiler.locals@.last().name,
                old(self).previous,
            ),
            old(self).compiler.scope_depth > 0 && old(self).compiler.locals@.len() >= 256 ==> final(self).compiler.locals == old(self).compiler.locals,
    {
        if self.compiler.scope_depth == 0 {
            return ;
        }
        let name = clone_token(&self.previous);
        let n = self.compiler.locals.len();
        let ghost depth = self.compiler.scope_depth as int;
        let ghost lex = self.previous.lexeme@;
        let mut i: usize = 0;
        let mut conflicted = false;
        let mut stopped = false;
        while i < n && !conflicted && !stopped
            invariant
                self.wf(),
                i <= n,
                n == self.compiler.locals@.len(),
                self.tokens@ == old(self).tokens@,
                self.pos == old(self).pos,
                self.current == old(self).current,
                self.previous == old(self).previous,
                self.chunk == old(self).chunk,
                self.compiler.scope_depth == old(self).compiler.scope_depth,
                self.compiler.locals == old(self).compiler.locals,
                depth == old(self).compiler.scope_depth as int,
                lex == old(self).previous.lexeme@,
                token_like(name, old(self).previous),
                !conflicted && !stopped ==> forall|k: int|
                    n - i <= k < n ==> !spec_local_is_shallower(
                        #[trigger] self.compiler.locals@[k],
                        depth,
                    ) && self.compiler.locals@[k].name.lexeme@ != lex,
                conflicted ==> spec_shadow_conflict(self.compiler.locals@, depth, lex)
                    && self.had_error,
                stopped ==> !conflicted && i < n && spec_local_is_shallower(
                    self.compiler.locals@[n - 1 - i],
                    depth,
                ) && (forall|k: int|
                    n - 1 - i < k < n ==> !spec_local_is_shallower(
                        #[trigger] self.compiler.locals@[k],
                        depth,
                    ) && self.compiler.locals@[k].name.lexeme@ != lex),
                !conflicted ==> self.had_error == old(self).had_error && self.diagnostics == old(self).diagnostics && self.panic_mode == old(self).panic_mode,
            decreases n - i, (if conflicted || stopped {
                0int
            } else {
                1int
            }),
        {
            let idx = n - 1 - i;
            let shallower = self.compiler.locals[idx].depth != -1 && self.compiler.locals[idx].depth
                < self.compiler.scope_depth;
            if shallower {
                stopped = true;
            } else {
                let same = identifiers_equal(&name, &self.compiler.locals[idx].name);
                if same {
                    proof {
                        assert(self.compiler.locals@[idx as int].name.lexeme@ == lex);
                        assert(!spec_local_is_shallower(self.compiler.locals@[idx as int], depth));
                        assert(spec_shadow_conflict(self.compiler.locals@, depth, lex));
                    }
                    self.error("Already a variable with this name in this scope.");
                    conflicted = true;
                } else {
                    i = i + 1;
                }
            }
        }
        proof {
            if !conflicted {
                // the walk found no duplicate: either it was stopped by a
                // shallower initialised local or it exhausted the stack,
                // and in both cases no conflicting witness can exist
                if stopped {
                    assert forall|j: int|
                        0 <= j < n && #[trigger] self.compiler.locals@[j].name.lexeme@ == lex
                            && !spec_local_is_shallower(
                            self.compiler.locals@[j],
                            depth,
                        ) implies exists|k: int|
                        j < k < n && spec_local_is_shallower(
                            #[trigger] self.compiler.locals@[k],
                            depth,
                        ) by {
                        assert(spec_local_is_shallower(self.compiler.locals@[n - 1 - i], depth));
                        assert(j != n - 1 - i);
                        assert(j < n - 1 - i);
                    }
                }
                assert(!spec_shadow_conflict(self.compiler.locals@, depth, lex));
            }
        }
        self.add_local(name);
    }

    /// Walk the locals from top to bottom for one named `name`; a hit
    /// yields its slot, the index from the bottom of the stack.  Reading a
    /// local inside its own initialiser (depth `-1`) is a compile error.
    fn resolve_local(&mut self, name: &Token) -> (r: Option<u8>)
        requires
            old(self).wf(),
        ensures
            final(self).wf(),
            final(self).tokens@ == old(self).tokens@,
            final(self).pos == old(self).pos,
            final(self).current == old(self).current,
            final(self).previous == old(self).previous,
            final(self).chunk == old(self).chunk,
            final(self).compiler == old(self).compiler,
            final(self).rem() == old(self).rem(),
            old(self).had_error ==> final(self).had_error,
            match r {
                Some(slot) => {
                    &&& (slot as int) < old(self).compiler.locals@.len()
                    &&& old(self).compiler.locals@[slot as int].name.lexeme@ == name.lexeme@
                    &&& (forall|j: int|
                        slot < j < old(self).compiler.locals@.len() ==> old(self).compiler.locals@[j].name.lexeme@ != name.lexeme@)
                    &&& (old(self).compiler.locals@[slot as int].depth == -1 ==> final(self).had_error)
                },
                None => forall|j: int|
                    0 <= j < old(self).compiler.locals@.len() ==> old(self).compiler.locals@[j].name.lexeme@ != name.lexeme@,
            },
    {
        let n = self.compiler.locals.len();
        let mut i: usize = 0;
        while i < n
            invariant
                self.wf(),
                i <= n,
                n == self.compiler.locals@.len(),
                *self == *old(self),
                forall|j: int|
                    n - i <= j < n ==> old(self).compiler.locals@[j].name.lexeme@ != name.lexeme@,
            decreases n - i,
        {
            let idx = n - 1 - i;
            let same = identifiers_equal(&self.compiler.locals[idx].name, name);
            if same {
                if self.compiler.locals[idx].depth == -1 {
                    self.error("Cannot read local variable in its own initializer.");
                }
                return Some(idx as u8);
            }
            i = i + 1;
        }
        None
    }

    /// Intern the token's name in the constant pool.
    fn identifier_constant(&mut self, name: &Token) -> (idx: u8)
        requires
            old(self).wf(),
        ensures
            final(self).wf(),
            final(self).tokens@ == old(self).tokens@,
            final(self).pos == old(self).pos,
            final(self).current == old(self).current,
            final(self).previous == old(self).previous,
            final(self).compiler == old(self).compiler,
            final(self).rem() == old(self).rem(),
            chunk_extends(old(self).chunk, final(self).chunk),
            final(self).chunk.unpatched@ == old(self).chunk.unpatched@,
            final(self).chunk.code@ == old(self).chunk.code@,
            (idx as int) < final(self).chunk.constants@.len(),
            old(self).had_error ==> final(self).had_error,
            old(self).chunk.constants@.len() < 256 ==> (final(self).chunk.constants@[idx as int]
                matches Constant::Text(t) && t@ == name.lexeme@),
    {
        let n = name.lexeme.len();
        let lex = copy_range(&name.lexeme, 0, n);
        proof {
            assert(lex@ =~= name.lexeme@);
        }
        self.make_constant(Constant::Text(lex))
    }

    /// Emit two operand-less instructions.
    fn emit_two(&mut self, a: OpCode, b: OpCode)
        requires
            old(self).wf(),
            spec_instr_size(a) == 1,
            spec_instr_size(b) == 1,
        ensures
            final(self).wf(),
            final(self).tokens@ == old(self).tokens@,
            final(self).pos == old(self).pos,
            final(self).current == old(self).current,
            final(self).previous == old(self).previous,
            final(self).compiler == old(self).compiler,
            final(self).had_error == old(self).had_error,
            final(self).rem() == old(self).rem(),
            chunk_extends(old(self).chunk, final(self).chunk),
            final(self).chunk.unpatched@ == old(self).chunk.unpatched@,
            final(self).chunk.constants@ == old(self).chunk.constants@,
            final(self).chunk.code@ == old(self).chunk.code@.push(spec_opcode_value(a)).push(
                spec_opcode_value(b),
            ),
    {
        let ghost s0 = *self;
        self.emit_op(a);
        let ghost s1 = *self;
        self.emit_op(b);
        proof {
            lemma_extends_trans(s0.chunk, s1.chunk, self.chunk);
        }
    }

    fn lookahead_prec(&self) -> (r: u8)
        ensures
            r == spec_prec_value(spec_get_rule(self.current.token_type).precedence),
    {
        prec_value(get_rule(self.current.token_type).precedence)
    }

    /// Parse an expression of at least the given binding strength: run the
    /// prefix rule of the token just consumed, then fold infix operators
    /// whose precedence is at least `prec`.  A trailing `=` that no rule
    /// consumed is the compile error "Invalid assignment target.".
    fn parse_precedence(&mut self, prec: Precedence, fuel: usize)
        requires
            old(self).wf(),
            spec_prec_value(prec) >= 1,
        ensures
            Parser::expr_step_ok(*old(self), *final(self)),
            old(self).current.token_type != TokenType::Eof ==> final(self).rem() < old(self).rem(),
            spec_get_rule(old(self).current.token_type).prefix == PrefixFn::PfNone ==> final(self).had_error,
            !final(self).had_error ==> final(self).chunk.code@.len() > old(self).chunk.code@.len(),
        decreases fuel, 2int,
    {
        let ghost entry = *self;
        self.advance();
        if fuel == 0 {
            self.error("Too much nesting to compile.");
            return ;
        }
        let rule = get_rule(self.previous.token_type);
        let can_assign = prec_value(prec) <= prec_value(Precedence::Assignment);
        let ghost s1 = *self;
        match rule.prefix {
            PrefixFn::PfNone => {
                self.error("Expect expression.");
                return ;
            },
            PrefixFn::PfGrouping => self.grouping(can_assign, fuel - 1),
            PrefixFn::PfUnary => self.unary(can_assign, fuel - 1),
            PrefixFn::PfVariable => self.variable(can_assign, fuel - 1),
            PrefixFn::PfString => self.string_lit(can_assign),
            PrefixFn::PfNumber => self.number(can_assign),
            PrefixFn::PfLiteral => self.literal(can_assign),
        }
        proof {
            lemma_extends_trans(entry.chunk, s1.chunk, self.chunk);
        }
        let pv = prec_value(prec);
        while pv <= self.lookahead_prec()
            invariant
                self.wf(),
                fuel >= 1,
                self.tokens@ == old(self).tokens@,
                self.compiler == old(self).compiler,
                chunk_extends(old(self).chunk, self.chunk),
                self.chunk.unpatched@ == old(self).chunk.unpatched@,
                old(self).had_error ==> self.had_error,
                old(self).at_end_ok() ==> self.at_end_ok(),
                self.rem() <= old(self).rem(),
                old(self).current.token_type != TokenType::Eof ==> self.rem() < old(self).rem(),
                self.chunk.code@.len() > old(self).chunk.code@.len() || self.had_error,
                pv == spec_prec_value(prec),
                1 <= pv,
            decreases self.rem(),
        {
            proof {
                assert(self.current.token_type != TokenType::Eof);
            }
            self.advance();
            let ghost it1 = *self;
            let infix = get_rule(self.previous.token_type).infix;
            match infix {
                InfixFn::InfNone => {
                    self.error("Infix rule not found.");
                    return ;
                },
                InfixFn::InfBinary => self.binary(can_assign, fuel - 1),
                InfixFn::InfAnd => self.and_rule(can_assign, fuel - 1),
                InfixFn::InfOr => self.or_rule(can_assign, fuel - 1),
            }
            proof {
                lemma_extends_trans(old(self).chunk, it1.chunk, self.chunk);
            }
        }
        if can_assign {
            let stray = self.match_type(TokenType::Equal);
            if stray {
                self.error("Invalid assignment target.");
            }
        }
    }

    /// Parse one expression: code that leaves the expression's value on
    /// the stack is emitted unless a compile error was reported.
    fn expression(&mut self, fuel: usize)
        requires
            old(self).wf(),
        ensures
            Parser::expr_step_ok(*old(self), *final(self)),
            old(self).current.token_type != TokenType::Eof ==> final(self).rem() < old(self).rem(),
            !final(self).had_error ==> final(self).chunk.code@.len() > old(self).chunk.code@.len(),
        decreases fuel, 3int,
    {
        self.parse_precedence(Precedence::Assignment, fuel);
    }

    /// Prefix rule for `(`: a parenthesised expression.
    fn grouping(&mut self, _can_assign: bool, fuel: usize)
        requires
            old(self).wf(),
        ensures
            Parser::expr_step_ok(*old(self), *final(self)),
            !final(self).had_error ==> final(self).chunk.code@.len() > old(self).chunk.code@.len(),
            fuel == 0 ==> final(self).had_error,
        decreases fuel, 1int,
    {
        if fuel == 0 {
            self.error("Too much nesting to compile.");
            return ;
        }
        let ghost s0 = *self;
        self.expression(fuel - 1);
        let ghost s1 = *self;
        self.consume(TokenType::RightParen, "Expect ')' after expression.");
        proof {
            lemma_extends_same(s1.chunk, self.chunk);
            lemma_extends_trans(s0.chunk, s1.chunk, self.chunk);
        }
    }

    /// Prefix rule for `-` and `!`: compile the operand at `Unary`
    /// precedence, then emit `NEGATE` or `NOT`.
    fn unary(&mut self, _can_assign: bool, fuel: usize)
        requires
            old(self).wf(),
            spec_get_rule(old(self).previous.token_type).prefix == PrefixFn::PfUnary,
        ensures
            Parser::expr_step_ok(*old(self), *final(self)),
            fuel == 0 ==> final(self).had_error,
            fuel > 0 ==> final(self).chunk.code@.len() > old(self).chunk.code@.len(),
            fuel > 0 && old(self).previous.token_type == TokenType::Minus ==> final(self).chunk.code@.last()
                == spec_opcode_value(OpCode::OpNegate),
            fuel > 0 && old(self).previous.token_type == TokenType::Bang ==> final(self).chunk.code@.last()
                == spec_opcode_value(OpCode::OpNot),
        decreases fuel, 1int,
    {
        if fuel == 0 {
            self.error("Too much nesting to compile.");
            return ;
        }
        let op_type = self.previous.token_type;
        proof {
            assert(op_type == TokenType::Minus || op_type == TokenType::Bang);
        }
        let ghost s0 = *self;
        self.parse_precedence(Precedence::Unary, fuel - 1);
        let ghost s1 = *self;
        if op_type == TokenType::Minus {
            self.emit_op(OpCode::OpNegate);
        } else if op_type == TokenType::Bang {
            self.emit_op(OpCode::OpNot);
        }
        proof {
            lemma_extends_trans(s0.chunk, s1.chunk, self.chunk);
        }
    }

    /// Infix rule for the arithmetic, equality and comparison operators:
    /// compile the right operand one level above the operator's
    /// precedence, then emit the operator's opcode(s) per
    /// `spec_binary_suffix_ok`.
    fn binary(&mut self, _can_assign: bool, fuel: usize)
        requires
            old(self).wf(),
        ensures
            Parser::expr_step_ok(*old(self), *final(self)),
            fuel == 0 ==> final(self).had_error,
            fuel > 0 ==> spec_binary_suffix_ok(
                old(self).previous.token_type,
                final(self).chunk.code@,
            ),
            fuel > 0 && spec_get_rule(old(self).previous.token_type).infix == InfixFn::InfBinary
                ==> final(self).chunk.code@.len() > old(self).chunk.code@.len(),
        decreases fuel, 1int,
    {
        if fuel == 0 {
            self.error("Too much nesting to compile.");
            return ;
        }
        let op_type = self.previous.token_type;
        let rule = get_rule(op_type);
        let mut next_prec = rule.precedence.next();
        if prec_value(next_prec) == 0 {
            next_prec = Precedence::Assignment;
        }
        let ghost s0 = *self;
        self.parse_precedence(next_prec, fuel - 1);
        let ghost s1 = *self;
        if op_type == TokenType::Plus {
            self.emit_op(OpCode::OpAdd);
        } else if op_type == TokenType::Minus {
            self.emit_op(OpCode::OpSubtract);
        } else if op_type == TokenType::Star {
            self.emit_op(OpCode::OpMultiply);
        } else if op_type == TokenType::Slash {
            self.emit_op(OpCode::OpDivide);
        } else if op_type == TokenType::BangEqual {
            self.emit_two(OpCode::OpEqual, OpCode::OpNot);
        } else if op_type == TokenType::EqualEqual {
            self.emit_op(OpCode::OpEqual);
        } else if op_type == TokenType::Greater {
            self.emit_op(OpCode::OpGreater);
        } else if op_type == TokenType::GreaterEqual {
            self.emit_two(OpCode::OpLess, OpCode::OpNot);
        } else if op_type == TokenType::Less {
            self.emit_op(OpCode::OpLess);
        } else if op_type == TokenType::LessEqual {
            self.emit_two(OpCode::OpGreater, OpCode::OpNot);
        }
        proof {
            lemma_extends_trans(s0.chunk, s1.chunk, self.chunk);
        }
    }

    /// Infix rule for `and`: emit `JUMP_IF_FALSE` over the rest, then
    /// `POP` and the right operand at `And` precedence, and patch the jump
    /// to land just past the operand -- so at run time a falsey left value
    /// skips every instruction of the right operand and remains on the
    /// stack as the result, while a truthy one is popped and replaced by
    /// the right operand's value.
    fn and_rule(&mut self, _can_assign: bool, fuel: usize)
        requires
            old(self).wf(),
        ensures
            Parser::expr_step_ok(*old(self), *final(self)),
            fuel == 0 ==> final(self).had_error,
            fuel > 0 ==> ({
                let base = old(self).chunk.code@.len() as int;
                let code = final(self).chunk.code@;
                &&& code.len() >= base + 4
                &&& code[base] == spec_opcode_value(OpCode::OpJumpIfFalse)
                &&& code[base + 3] == spec_opcode_value(OpCode::OpPop)
                &&& (code.len() - base - 3 <= 0xffff ==> crate::chunk::spec_jump_offset(code, base)
                    == code.len() - base - 3)
            }),
        decreases fuel, 1int,
    {
        if fuel == 0 {
            self.error("Too much nesting to compile.");
            return ;
        }
        let ghost s0 = *self;
        proof {
            crate::chunk::lemma_unpatched_all_below(s0.chunk);
        }
        let end_jump = self.emit_jump(OpCode::OpJumpIfFalse);
        let ghost s1 = *self;
        self.emit_op(OpCode::OpPop);
        let ghost s2 = *self;
        self.parse_precedence(Precedence::And, fuel - 1);
        let ghost s3 = *self;
        proof {
            let base = s0.chunk.code@.len() as int;
            assert(s2.chunk.code@[base] == spec_opcode_value(OpCode::OpJumpIfFalse));
            assert(s2.chunk.code@[base + 3] == spec_opcode_value(OpCode::OpPop));
            assert(s3.chunk.code@[base] == s2.chunk.code@[base]);
            assert(s3.chunk.code@[base + 3] == s2.chunk.code@[base + 3]);
        }
        self.patch_jump(end_jump);
        proof {
            lemma_extends_trans(s0.chunk, s1.chunk, s2.chunk);
            lemma_extends_trans(s0.chunk, s2.chunk, s3.chunk);
            lemma_extends_trans(s0.chunk, s3.chunk, self.chunk);
            assert(self.chunk.unpatched@ =~= s0.chunk.unpatched@);
            let base = s0.chunk.code@.len() as int;
            assert(self.chunk.code@[base] == s3.chunk.code@[base]);
            assert(self.chunk.code@[base + 3] == s3.chunk.code@[base + 3]);
        }
    }

    /// Infix rule for `or`: emit `JUMP_IF_FALSE` over an unconditional
    /// `JUMP`, patch the first to land on the `POP` that begins the right
    /// operand's code, and patch the second to land just past it -- so at
    /// run time a falsey left value falls through to the right operand
    /// while a truthy one jumps over it and remains as the result.
    fn or_rule(&mut self, _can_assign: bool, fuel: usize)
        requires
            old(self).wf(),
        ensures
            Parser::expr_step_ok(*old(self), *final(self)),
            fuel == 0 ==> final(self).had_error,
            fuel > 0 ==> ({
                let base = old(self).chunk.code@.len() as int;
                let code = final(self).chunk.code@;
                &&& code.len() >= base + 7
                &&& code[base] == spec_opcode_value(OpCode::OpJumpIfFalse)
                &&& code[base + 3] == spec_opcode_value(OpCode::OpJump)
                &&& code[base + 6] == spec_opcode_value(OpCode::OpPop)
                &&& crate::chunk::spec_jump_offset(code, base) == 3
                &&& (code.len() - base - 6 <= 0xffff ==> crate::chunk::spec_jump_offset(
                    code,
                    base + 3,
                ) == code.len() - base - 6)
            }),
        decreases fuel, 1int,
    {
        if fuel == 0 {
            self.error("Too much nesting to compile.");
            return ;
        }
        let ghost s0 = *self;
        proof {
            crate::chunk::lemma_unpatched_all_below(s0.chunk);
        }
        let else_jump = self.emit_jump(OpCode::OpJumpIfFalse);
        let ghost s1 = *self;
        let end_jump = self.emit_jump(OpCode::OpJump);
        let ghost s2 = *self;
        self.patch_jump(else_jump);
        let ghost s3 = *self;
        proof {
            let base = s0.chunk.code@.len() as int;
            assert(s2.chunk.code@[base] == spec_opcode_value(OpCode::OpJumpIfFalse));
            assert(s2.chunk.code@[base + 3] == spec_opcode_value(OpCode::OpJump));
            assert(s3.chunk.code@[base] == s2.chunk.code@[base]);
            assert(s3.chunk.code@[base + 3] == s2.chunk.code@[base + 3]);
        }
        self.emit_op(OpCode::OpPop);
        let ghost s4 = *self;
        self.parse_precedence(Precedence::Or, fuel - 1);
        let ghost s5 = *self;
        proof {
            let base = s0.chunk.code@.len() as int;
            assert(s4.chunk.code@[base] == s3.chunk.code@[base]);
            assert(s4.chunk.code@[base + 3] == s3.chunk.code@[base + 3]);
            assert(s4.chunk.code@[base + 6] == spec_opcode_value(OpCode::OpPop));
            assert(s5.chunk.code@[base] == s4.chunk.code@[base]);
            assert(s5.chunk.code@[base + 1] == s4.chunk.code@[base + 1]);
            assert(s5.chunk.code@[base + 2] == s4.chunk.code@[base + 2]);
            assert(s5.chunk.code@[base + 3] == s4.chunk.code@[base + 3]);
            assert(s5.chunk.code@[base + 6] == s4.chunk.code@[base + 6]);
        }
        self.patch_jump(end_jump);
        proof {
            lemma_extends_trans(s0.chunk, s1.chunk, s2.chunk);
            lemma_extends_trans(s0.chunk, s2.chunk, s3.chunk);
            lemma_extends_trans(s0.chunk, s3.chunk, s4.chunk);
            lemma_extends_trans(s0.chunk, s4.chunk, s5.chunk);
            lemma_extends_trans(s0.chunk, s5.chunk, self.chunk);
            assert(self.chunk.unpatched@ =~= s0.chunk.unpatched@);
            let base = s0.chunk.code@.len() as int;
            assert(self.chunk.code@[base] == s5.chunk.code@[base]);
            assert(self.chunk.code@[base + 1] == s5.chunk.code@[base + 1]);
            assert(self.chunk.code@[base + 2] == s5.chunk.code@[base + 2]);
            assert(self.chunk.code@[base + 3] == s5.chunk.code@[base + 3]);
            assert(self.chunk.code@[base + 6] == s5.chunk.code@[base + 6]);
        }
    }

    /// Prefix rule for an identifier.
    fn variable(&mut self, can_assign: bool, fuel: usize)
        requires
            old(self).wf(),
        ensures
            Parser::expr_step_ok(*old(self), *final(self)),
            fuel == 0 ==> final(self).had_error,
            fuel > 0 ==> final(self).chunk.code@.len() >= old(self).chunk.code@.len() + 2,
        decreases fuel, 1int,
    {
        self.named_variable(can_assign, fuel);
    }

    /// Compile a read of, or an assignment to, the variable named by the
    /// previous token: `GET_LOCAL`/`SET_LOCAL` with the slot of a
    /// same-named local if one resolves, else `GET_GLOBAL`/`SET_GLOBAL`
    /// with the interned name's pool index.  The set variant is emitted
    /// exactly when an `=` follows in assignment position, after
    /// compiling the right-hand side.
    fn named_variable(&mut self, can_assign: bool, fuel: usize)
        requires
            old(self).wf(),
        ensures
            Parser::expr_step_ok(*old(self), *final(self)),
            fuel == 0 ==> final(self).had_error,
            fuel > 0 ==> ({
                let n2 = final(self).chunk.code@.len() as int;
                let opb = final(self).chunk.code@[n2 - 2];
                let arg = final(self).chunk.code@[n2 - 1] as int;
                &&& n2 >= old(self).chunk.code@.len() + 2
                &&& (if spec_resolves_local(
                    old(self).compiler.locals@,
                    old(self).previous.lexeme@,
                ) {
                    &&& (opb == spec_opcode_value(OpCode::OpGetLocal) || opb == spec_opcode_value(
                        OpCode::OpSetLocal,
                    ))
                    &&& 0 <= arg < old(self).compiler.locals@.len()
                    &&& old(self).compiler.locals@[arg].name.lexeme@ == old(self).previous.lexeme@
                } else {
                    &&& (opb == spec_opcode_value(OpCode::OpGetGlobal) || opb == spec_opcode_value(
                        OpCode::OpSetGlobal,
                    ))
                    &&& (old(self).chunk.constants@.len() < 256 ==> (final(self).chunk.constants@[arg] matches Constant::Text(t) && t@ == old(self).previous.lexeme@))
                })
                &&& ((opb == spec_opcode_value(OpCode::OpSetLocal) || opb == spec_opcode_value(
                    OpCode::OpSetGlobal,
                )) <==> (can_assign && old(self).current.token_type == TokenType::Equal))
            }),
        decreases fuel, 0int,
    {
        if fuel == 0 {
            self.error("Too much nesting to compile.");
            return ;
        }
        let name = clone_token(&self.previous);
        let ghost s0 = *self;
        let resolved = self.resolve_local(&name);
        let mut arg: u8 = 0;
        let mut get_op = OpCode::OpGetGlobal;
        let mut set_op = OpCode::OpSetGlobal;
        match resolved {
            Some(slot) => {
                arg = slot;
                get_op = OpCode::OpGetLocal;
                set_op = OpCode::OpSetLocal;
            },
            None => {
                arg = self.identifier_constant(&name);
            },
        }
        let ghost s1 = *self;
        let mut assigned = false;
        if can_assign {
            assigned = self.match_type(TokenType::Equal);
        }
        let ghost s2 = *self;
        if assigned {
            self.expression(fuel - 1);
            let ghost s3 = *self;
            self.emit_op_u8(set_op, arg);
            proof {
                lemma_extends_trans(s0.chunk, s1.chunk, s2.chunk);
                lemma_extends_trans(s0.chunk, s2.chunk, s3.chunk);
                lemma_extends_trans(s0.chunk, s3.chunk, self.chunk);
            }
        } else {
            self.emit_op_u8(get_op, arg);
            proof {
                lemma_extends_trans(s0.chunk, s1.chunk, s2.chunk);
                lemma_extends_trans(s0.chunk, s2.chunk, self.chunk);
            }
        }
    }

    /// Prefix rule for a number literal: intern the IEEE-754 bits the
    /// token carries and emit `CONSTANT idx` for them.
    fn number(&mut self, _can_assign: bool)
        requires
            old(self).wf(),
        ensures
            Parser::expr_step_ok(*old(self), *final(self)),
            final(self).chunk.code@.len() == old(self).chunk.code@.len() + 2,
            final(self).chunk.code@[old(self).chunk.code@.len() as int] == spec_opcode_value(
                OpCode::OpConstant,
            ),
            old(self).chunk.constants@.len() < 256 ==> final(self).chunk.constants@[final(self).chunk.code@[old(self).chunk.code@.len() as int + 1] as int] == Constant::Number(
                old(self).previous.num,
            ),
    {
        let bits = self.previous.num;
        self.emit_constant(Constant::Number(bits));
    }

    /// Prefix rule for a string literal: strip the surrounding quotes,
    /// intern the bytes and emit `CONSTANT idx` for them.
    fn string_lit(&mut self, _can_assign: bool)
        requires
            old(self).wf(),
        ensures
            Parser::expr_step_ok(*old(self), *final(self)),
            final(self).chunk.code@.len() == old(self).chunk.code@.len() + 2,
            final(self).chunk.code@[old(self).chunk.code@.len() as int] == spec_opcode_value(
                OpCode::OpConstant,
            ),
            old(self).chunk.constants@.len() < 256 ==> (final(self).chunk.constants@[final(self).chunk.code@[old(self).chunk.code@.len() as int + 1] as int] matches Constant::Text(t)
                && t@ == spec_stripped(old(self).previous.lexeme@)),
    {
        let n = self.previous.lexeme.len();
        let from: usize = if n >= 2 {
            1
        } else {
            0
        };
        let to: usize = if n >= 2 {
            n - 1
        } else {
            0
        };
        let bytes = copy_range(&self.previous.lexeme, from, to);
        self.emit_constant(Constant::Text(bytes));
    }

    /// Prefix rule for `false`, `nil` and `true`: one opcode, pushing the
    /// corresponding literal value at run time.
    fn literal(&mut self, _can_assign: bool)
        requires
            old(self).wf(),
            spec_get_rule(old(self).previous.token_type).prefix == PrefixFn::PfLiteral,
        ensures
            Parser::expr_step_ok(*old(self), *final(self)),
            final(self).chunk.code@ == old(self).chunk.code@.push(
                spec_opcode_value(spec_literal_op(old(self).previous.token_type)),
            ),
            final(self).had_error == old(self).had_error,
    {
        if self.previous.token_type == TokenType::False {
            self.emit_op(OpCode::OpFalse);
        } else if self.previous.token_type == TokenType::True {
            self.emit_op(OpCode::OpTrue);
        } else if self.previous.token_type == TokenType::Nil {
            self.emit_op(OpCode::OpNil);
        }
    }

    /// Consume an identifier as a variable name.  At global scope the name
    /// is interned and its constant index returned; in a local scope the
    /// name is declared as a local and the result is 0, unused.
    fn parse_variable(&mut self, message: &'static str) -> (idx: u8)
        requires
            old(self).wf(),
        ensures
            Parser::parse_step_ok(*old(self), *final(self)),
            final(self).compiler.scope_depth == old(self).compiler.scope_depth,
            final(self).compiler.scope_depth == 0 ==> (idx as int) < final(self).chunk.constants@.len(),
    {
        let ghost s0 = *self;
        self.consume(TokenType::Identifier, message);
        let ghost s1 = *self;
        self.declare_variable();
        let ghost s2 = *self;
        if self.compiler.scope_depth > 0 {
            proof {
                lemma_extends_same(s0.chunk, self.chunk);
            }
            return 0;
        }
        let name = clone_token(&self.previous);
        let idx = self.identifier_constant(&name);
        proof {
            lemma_extends_same(s0.chunk, s2.chunk);
            lemma_extends_trans(s0.chunk, s2.chunk, self.chunk);
        }
        idx
    }

    /// At global scope, emit `DEFINE_GLOBAL idx`; in a local scope, mark
    /// the newest local as initialised instead (its value is already in
    /// its stack slot).
    fn define_variable(&mut self, global: u8)
        requires
            old(self).wf(),
            old(self).compiler.scope_depth == 0 ==> (global as int) < old(self).chunk.constants@.len(),
        ensures
            Parser::parse_step_ok(*old(self), *final(self)),
            final(self).had_error == old(self).had_error,
            old(self).compiler.scope_depth == 0 ==> final(self).chunk.code@ == old(self).chunk.code@.push(spec_opcode_value(OpCode::OpDefineGlobal)).push(global) && final(self).compiler.locals == old(self).compiler.locals,
            old(self).compiler.scope_depth > 0 ==> final(self).chunk == old(self).chunk && (old(self).compiler.locals@.len() > 0 ==> final(self).compiler.locals@.len() == old(self).compiler.locals@.len() && final(self).compiler.locals@.last().depth == old(self).compiler.scope_depth),
    {
        if self.compiler.scope_depth > 0 {
            self.mark_initialized();
            return ;
        }
        self.emit_op_u8(OpCode::OpDefineGlobal, global);
    }

    /// `var IDENT ( = expression )? ;` -- an absent initialiser defaults
    /// to `nil`.  At global scope the statement's code ends with
    /// `DEFINE_GLOBAL idx`, consuming the initialiser's value; in a local
    /// scope no define instruction is emitted (the value stays in the
    /// new local's stack slot).
    fn var_declaration(&mut self, fuel: usize)
        requires
            old(self).wf(),
        ensures
            Parser::parse_step_ok(*old(self), *final(self)),
            old(self).compiler.scope_depth == 0 ==> final(self).chunk.code@.len() >= old(self).chunk.code@.len() + 2 && final(self).chunk.code@[final(self).chunk.code@.len() - 2]
                == spec_opcode_value(OpCode::OpDefineGlobal),
        decreases fuel, 8int,
    {
        let ghost s0 = *self;
        let global = self.parse_variable("Expect variable name.");
        let ghost s1 = *self;
        let has_init = self.match_type(TokenType::Equal);
        let ghost s2 = *self;
        if has_init {
            self.expression(fuel);
        } else {
            self.emit_op(OpCode::OpNil);
        }
        let ghost s3 = *self;
        self.consume(TokenType::Semicolon, "Expect ';' after variable declaration.");
        let ghost s4 = *self;
        self.define_variable(global);
        proof {
            lemma_extends_trans(s0.chunk, s1.chunk, s2.chunk);
            lemma_extends_trans(s0.chunk, s2.chunk, s3.chunk);
            lemma_extends_trans(s0.chunk, s3.chunk, s4.chunk);
            lemma_extends_trans(s0.chunk, s4.chunk, self.chunk);
            if s0.compiler.scope_depth == 0 {
                assert(s1.compiler.scope_depth == s0.compiler.scope_depth);
                assert(s2.compiler == s1.compiler);
                assert(s3.compiler == s2.compiler);
                assert(s4.compiler == s3.compiler);
                assert(s4.compiler.scope_depth == 0);
                assert(self.chunk.code@ == s4.chunk.code@.push(
                    spec_opcode_value(OpCode::OpDefineGlobal),
                ).push(global));
                assert(self.chunk.code@[self.chunk.code@.len() - 2] == spec_opcode_value(
                    OpCode::OpDefineGlobal,
                ));
            }
        }
    }

    /// `print expression ;` -- the statement's code always ends with the
    /// `PRINT` that consumes the expression's value.
    fn print_statement(&mut self, fuel: usize)
        requires
            old(self).wf(),
        ensures
            Parser::parse_step_ok(*old(self), *final(self)),
            final(self).chunk.code@.len() > old(self).chunk.code@.len(),
            final(self).chunk.code@.last() == spec_opcode_value(OpCode::OpPrint),
        decreases fuel, 7int,
    {
        let ghost s0 = *self;
        self.expression(fuel);
        let ghost s1 = *self;
        self.consume(TokenType::Semicolon, "Expect ';' after value.");
        let ghost s2 = *self;
        self.emit_op(OpCode::OpPrint);
        proof {
            lemma_extends_same(s1.chunk, s2.chunk);
            lemma_extends_trans(s0.chunk, s1.chunk, s2.chunk);
            lemma_extends_trans(s0.chunk, s2.chunk, self.chunk);
        }
    }

    /// `expression ;` -- the value is computed and discarded: the
    /// statement's code always ends with a `POP`, so it has no net stack
    /// effect at run time.
    fn expression_statement(&mut self, fuel: usize)
        requires
            old(self).wf(),
        ensures
            Parser::parse_step_ok(*old(self), *final(self)),
            old(self).current.token_type != TokenType::Eof ==> final(self).rem() < old(self).rem(),
            final(self).chunk.code@.len() > old(self).chunk.code@.len(),
            final(self).chunk.code@.last() == spec_opcode_value(OpCode::OpPop),
        decreases fuel, 7int,
    {
        let ghost s0 = *self;
        self.expression(fuel);
        let ghost s1 = *self;
        self.consume(TokenType::Semicolon, "Expect ';' after expression.");
        let ghost s2 = *self;
        self.emit_op(OpCode::OpPop);
        proof {
            lemma_extends_same(s1.chunk, s2.chunk);
            lemma_extends_trans(s0.chunk, s1.chunk, s2.chunk);
            lemma_extends_trans(s0.chunk, s2.chunk, self.chunk);
        }
    }

    /// `if ( expression ) statement ( else statement )?` -- the condition
    /// is popped in both arms.
    fn if_statement(&mut self, fuel: usize)
        requires
            old(self).wf(),
        ensures
            Parser::parse_step_ok(*old(self), *final(self)),
            fuel > 0 ==> final(self).chunk.code@.len() >= old(self).chunk.code@.len() + 8,
        decreases fuel, 7int,
    {
        if fuel == 0 {
            self.error("Too much nesting to compile.");
            return ;
        }
        let ghost s0 = *self;
        self.consume(TokenType::LeftParen, "Expect '(' after 'if'.");
        let ghost s1 = *self;
        self.expression(fuel);
        let ghost s2 = *self;
        self.consume(TokenType::RightParen, "Expect ')' after condition.");
        let ghost s3 = *self;
        let then_jump = self.emit_jump(OpCode::OpJumpIfFalse);
        let ghost s4 = *self;
        self.emit_op(OpCode::OpPop);
        let ghost s5 = *self;
        self.statement(fuel - 1);
        let ghost s6 = *self;
        let else_jump = self.emit_jump(OpCode::OpJump);
        let ghost s7 = *self;
        self.patch_jump(then_jump);
        let ghost s8 = *self;
        self.emit_op(OpCode::OpPop);
        let ghost s9 = *self;
        let has_else = self.match_type(TokenType::Else);
        let ghost s10 = *self;
        if has_else {
            self.statement(fuel - 1);
        }
        let ghost s11 = *self;
        self.patch_jump(else_jump);
        proof {
            lemma_extends_same(s0.chunk, s1.chunk);
            lemma_extends_trans(s0.chunk, s1.chunk, s2.chunk);
            lemma_extends_same(s2.chunk, s3.chunk);
            lemma_extends_trans(s0.chunk, s2.chunk, s3.chunk);
            lemma_extends_trans(s0.chunk, s3.chunk, s4.chunk);
            lemma_extends_trans(s0.chunk, s4.chunk, s5.chunk);
            lemma_extends_trans(s0.chunk, s5.chunk, s6.chunk);
            lemma_extends_trans(s0.chunk, s6.chunk, s7.chunk);
            lemma_extends_trans(s0.chunk, s7.chunk, s8.chunk);
            lemma_extends_trans(s0.chunk, s8.chunk, s9.chunk);
            lemma_extends_same(s9.chunk, s10.chunk);
            lemma_extends_trans(s0.chunk, s9.chunk, s10.chunk);
            lemma_extends_trans(s0.chunk, s10.chunk, s11.chunk);
            lemma_extends_trans(s0.chunk, s11.chunk, self.chunk);
            assert(self.chunk.unpatched@ =~= s0.chunk.unpatched@);
        }
    }

    /// `while ( expression ) statement` -- the body loops back to re-test
    /// the condition; the condition is popped on both paths.
    fn while_statement(&mut self, fuel: usize)
        requires
            old(self).wf(),
        ensures
            Parser::parse_step_ok(*old(self), *final(self)),
            fuel > 0 ==> final(self).chunk.code@.len() >= old(self).chunk.code@.len() + 8
                && final(self).chunk.code@.last() == spec_opcode_value(OpCode::OpPop) && final(self).chunk.code@[final(self).chunk.code@.len() - 4] == spec_opcode_value(OpCode::OpLoop),
        decreases fuel, 7int,
    {
        if fuel == 0 {
            self.error("Too much nesting to compile.");
            return ;
        }
        let ghost s0 = *self;
        let loop_start = self.chunk.code_len();
        self.consume(TokenType::LeftParen, "Expect '(' after 'while'.");
        let ghost s1 = *self;
        self.expression(fuel);
        let ghost s2 = *self;
        proof {
            assert(is_boundary(s1.chunk.starts@, s1.chunk.code@.len() as int, loop_start as int));
            assert(is_boundary(s2.chunk.starts@, s2.chunk.code@.len() as int, loop_start as int));
        }
        self.consume(TokenType::RightParen, "Expect ')' after condition.");
        let ghost s3 = *self;
        let exit_jump = self.emit_jump(OpCode::OpJumpIfFalse);
        let ghost s4 = *self;
        self.emit_op(OpCode::OpPop);
        let ghost s5 = *self;
        self.statement(fuel - 1);
        let ghost s6 = *self;
        proof {
            assert(is_boundary(s4.chunk.starts@, s4.chunk.code@.len() as int, loop_start as int));
            assert(is_boundary(s5.chunk.starts@, s5.chunk.code@.len() as int, loop_start as int));
            assert(is_boundary(s6.chunk.starts@, s6.chunk.code@.len() as int, loop_start as int));
        }
        self.emit_loop(loop_start);
        let ghost s7 = *self;
        self.patch_jump(exit_jump);
        let ghost s8 = *self;
        proof {
            let lp = s6.chunk.code@.len() as int;
            assert(s7.chunk.code@[lp] == spec_opcode_value(OpCode::OpLoop));
            assert(s8.chunk.code@[lp] == s7.chunk.code@[lp]);
        }
        self.emit_op(OpCode::OpPop);
        proof {
            lemma_extends_same(s0.chunk, s1.chunk);
            lemma_extends_trans(s0.chunk, s1.chunk, s2.chunk);
            lemma_extends_same(s2.chunk, s3.chunk);
            lemma_extends_trans(s0.chunk, s2.chunk, s3.chunk);
            lemma_extends_trans(s0.chunk, s3.chunk, s4.chunk);
            lemma_extends_trans(s0.chunk, s4.chunk, s5.chunk);
            lemma_extends_trans(s0.chunk, s5.chunk, s6.chunk);
            lemma_extends_trans(s0.chunk, s6.chunk, s7.chunk);
            lemma_extends_trans(s0.chunk, s7.chunk, s8.chunk);
            lemma_extends_trans(s0.chunk, s8.chunk, self.chunk);
            assert(self.chunk.unpatched@ =~= s0.chunk.unpatched@);
        }
    }

    /// `{ declaration* }` -- the braces delimit a lexical scope.
    fn block(&mut self, fuel: usize)
        requires
            old(self).wf(),
        ensures
            Parser::parse_step_ok(*old(self), *final(self)),
        decreases fuel, 7int,
    {
        if fuel == 0 {
            self.error("Too much nesting to compile.");
            return ;
        }
        let ghost s0 = *self;
        while !self.check(TokenType::RightBrace) && !self.check(TokenType::Eof)
            invariant
                self.wf(),
                fuel >= 1,
                self.tokens@ == s0.tokens@,
                chunk_extends(s0.chunk, self.chunk),
                self.chunk.unpatched@ == s0.chunk.unpatched@,
                self.rem() <= s0.rem(),
                s0.had_error ==> self.had_error,
                old(self).at_end_ok() ==> self.at_end_ok(),
            decreases self.rem(),
        {
            let ghost b0 = *self;
            self.declaration(fuel - 1);
            proof {
                lemma_extends_trans(s0.chunk, b0.chunk, self.chunk);
            }
        }
        let ghost s1 = *self;
        self.consume(TokenType::RightBrace, "Expect '}' after block.");
        proof {
            lemma_extends_same(s1.chunk, self.chunk);
            lemma_extends_trans(s0.chunk, s1.chunk, self.chunk);
        }
    }

    /// One statement: `print`, `if`, `while`, a braced block, or an
    /// expression statement.  A statement that begins with `print` ends
    /// with the `PRINT` opcode.
    fn statement(&mut self, fuel: usize)
        requires
            old(self).wf(),
        ensures
            Parser::parse_step_ok(*old(self), *final(self)),
            old(self).current.token_type != TokenType::Eof ==> final(self).rem() < old(self).rem(),
            old(self).current.token_type == TokenType::Print ==> final(self).chunk.code@.len()
                > old(self).chunk.code@.len() && final(self).chunk.code@.last()
                == spec_opcode_value(OpCode::OpPrint),
        decreases fuel, 8int,
    {
        let ghost s0 = *self;
        let is_print = self.match_type(TokenType::Print);
        if is_print {
            let ghost s1 = *self;
            self.print_statement(fuel);
            proof {
                lemma_extends_same(s0.chunk, s1.chunk);
                lemma_extends_trans(s0.chunk, s1.chunk, self.chunk);
            }
            return ;
        }
        let is_if = self.match_type(TokenType::If);
        if is_if {
            let ghost s1 = *self;
            self.if_statement(fuel);
            proof {
                lemma_extends_same(s0.chunk, s1.chunk);
                lemma_extends_trans(s0.chunk, s1.chunk, self.chunk);
            }
            return ;
        }
        let is_while = self.match_type(TokenType::While);
        if is_while {
            let ghost s1 = *self;
            self.while_statement(fuel);
            proof {
                lemma_extends_same(s0.chunk, s1.chunk);
                lemma_extends_trans(s0.chunk, s1.chunk, self.chunk);
            }
            return ;
        }
        let is_block = self.match_type(TokenType::LeftBrace);
        if is_block {
            self.begin_scope();
            let ghost s1 = *self;
            self.block(fuel);
            let ghost s2 = *self;
            self.end_scope();
            proof {
                lemma_extends_same(s0.chunk, s1.chunk);
                lemma_extends_trans(s0.chunk, s1.chunk, s2.chunk);
                lemma_extends_trans(s0.chunk, s2.chunk, self.chunk);
            }
            return ;
        }
        self.expression_statement(fuel);
    }

    /// After a compile error, skip tokens until a statement boundary:
    /// panic mode is cleared and the parser stops at the end of the input,
    /// just past a `;`, or just before a keyword that starts a statement
    /// (panic mode turns back on only if skipping reported further error
    /// tokens from the scanner).
    fn synchronize(&mut self)
        requires
            old(self).wf(),
        ensures
            final(self).wf(),
            final(self).tokens@ == old(self).tokens@,
            final(self).chunk == old(self).chunk,
            final(self).compiler == old(self).compiler,
            final(self).rem() <= old(self).rem(),
            old(self).had_error ==> final(self).had_error,
            old(self).at_end_ok() ==> final(self).at_end_ok(),
            final(self).current.token_type == TokenType::Eof || final(self).previous.token_type
                == TokenType::Semicolon || spec_is_sync_point(final(self).current.token_type),
    {
        self.panic_mode = false;
        while !self.check(TokenType::Eof)
            invariant
                self.wf(),
                self.tokens@ == old(self).tokens@,
                self.chunk == old(self).chunk,
                self.compiler == old(self).compiler,
                self.rem() <= old(self).rem(),
                old(self).had_error ==> self.had_error,
                old(self).at_end_ok() ==> self.at_end_ok(),
            decreases self.rem(),
        {
            if self.previous.token_type == TokenType::Semicolon {
                return ;
            }
            let k = self.current.token_type;
            if k == TokenType::Class || k == TokenType::Fun || k == TokenType::Var || k
                == TokenType::For || k == TokenType::If || k == TokenType::While || k
                == TokenType::Print || k == TokenType::Return {
                return ;
            }
            self.advance();
        }
    }

    /// One declaration: a `var` declaration or a statement; after either,
    /// panic mode resynchronises at a statement boundary.
    fn declaration(&mut self, fuel: usize)
        requires
            old(self).wf(),
        ensures
            Parser::parse_step_ok(*old(self), *final(self)),
            old(self).current.token_type != TokenType::Eof ==> final(self).rem() < old(self).rem(),
        decreases fuel, 9int,
    {
        let ghost s0 = *self;
        let is_var = self.match_type(TokenType::Var);
        let ghost s1 = *self;
        if is_var {
            self.var_declaration(fuel);
        } else {
            self.statement(fuel);
        }
        let ghost s2 = *self;
        if self.panic_mode {
            self.synchronize();
        }
        proof {
            lemma_extends_same(s0.chunk, s1.chunk);
            lemma_extends_trans(s0.chunk, s1.chunk, s2.chunk);
            lemma_extends_same(s2.chunk, self.chunk);
            lemma_extends_trans(s0.chunk, s2.chunk, self.chunk);
        }
    }

    /// Compile the whole token stream: declarations until `Eof`, then the
    /// final `RETURN`.  The entire input is consumed -- the cursor ends on
    /// the stream's final `Eof` token.  Returns true iff no compile error
    /// was reported; the chunk is then well formed with every jump
    /// patched, so its constant operands index the pool and its jumps land
    /// on instruction boundaries.
    pub fn compile(&mut self) -> (r: bool)
        requires
            old(self).wf(),
        ensures
            Parser::parse_step_ok(*old(self), *final(self)),
            r == !final(self).had_error,
            r <==> final(self).diagnostics@.len() == 0,
            final(self).current.token_type == TokenType::Eof,
            final(self).pos == final(self).tokens@.len() - 1,
            r ==> !final(self).panic_mode,
            final(self).chunk.wf(),
            final(self).chunk.code@.len() == final(self).chunk.lines@.len(),
            final(self).chunk.unpatched@ == old(self).chunk.unpatched@,
            final(self).chunk.code@.len() > 0,
            final(self).chunk.code@[final(self).chunk.code@.len() - 1] == spec_opcode_value(
                OpCode::OpReturn,
            ),
    {
        let ghost s0 = *self;
        self.advance();
        loop
            invariant
                self.wf(),
                self.tokens@ == s0.tokens@,
                chunk_extends(s0.chunk, self.chunk),
                self.chunk.unpatched@ == s0.chunk.unpatched@,
                self.rem() <= s0.rem(),
                s0.had_error ==> self.had_error,
                self.at_end_ok(),
            ensures
                self.current.token_type == TokenType::Eof,
                self.pos == self.tokens@.len() - 1,
            decreases self.rem(),
        {
            let at_end = self.match_type(TokenType::Eof);
            if at_end {
                break ;
            }
            let ghost b0 = *self;
            self.declaration(usize::MAX);
            proof {
                lemma_extends_trans(s0.chunk, b0.chunk, self.chunk);
            }
        }
        let ghost s1 = *self;
        self.emit_return();
        proof {
            lemma_extends_trans(s0.chunk, s1.chunk, self.chunk);
        }
        !self.had_error
    }
}

} // verus!
