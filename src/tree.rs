//! The script format: `key operator value` statements, with braces for objects and
//! arrays and `#` for comments; a reader, a writer, and what each means.
use vstd::prelude::*;

verus! {

/// The comparison that joins a key to its value.
#[derive(Clone, Copy, Debug, PartialEq, Eq, Structural)]
pub enum Operator {
    Equal,
    LessThan,
    LessThanEqual,
    GreaterThan,
    GreaterThanEqual,
    NotEqual,
    Exact,
}

/// One `key operator value` statement.
#[derive(Debug)]
pub struct Node {
    pub key: Vec<u8>,
    pub op: Operator,
    pub value: Value,
}

/// What stands right of the operator.
#[derive(Debug)]
pub enum Value {
    Scalar(Vec<u8>),
    Array(Vec<Vec<u8>>),
    Object(Vec<Node>),
}

/// The mathematical form of a [`Node`].
pub struct NodeV {
    pub key: Seq<u8>,
    pub op: Operator,
    pub value: ValueV,
}

/// The mathematical form of a [`Value`].
pub enum ValueV {
    Scalar(Seq<u8>),
    Array(Seq<Seq<u8>>),
    Object(Seq<NodeV>),
}

pub open spec fn node_view(n: Node) -> NodeV
    decreases n,
{
    NodeV { key: n.key@, op: n.op, value: value_view(n.value) }
}

pub open spec fn value_view(v: Value) -> ValueV
    decreases v,
{
    match v {
        Value::Scalar(s) => ValueV::Scalar(s@),
        Value::Array(a) => ValueV::Array(a@.map_values(|x: Vec<u8>| x@)),
        Value::Object(ns) => ValueV::Object(nodes_view(ns@)),
    }
}

pub open spec fn nodes_view(ns: Seq<Node>) -> Seq<NodeV>
    decreases ns,
{
    Seq::new(
        ns.len(),
        |i: int|
            if 0 <= i < ns.len() {
                node_view(ns[i])
            } else {
                NodeV { key: Seq::empty(), op: Operator::Equal, value: ValueV::Scalar(Seq::empty()) }
            },
    )
}

} // verus!

verus! {

/// Deepest nesting of braces that the reader accepts.
pub const MAX_NESTING: usize = 64;

/// Why a buffer could not be read as a tree.
#[derive(Debug, PartialEq, Eq, Structural)]
pub enum ParseError {
    /// The byte offset at which reading stopped.
    MalformedSyntax { offset: usize },
}

pub open spec fn is_space(c: u8) -> bool {
    c == 32 || c == 9 || c == 10 || c == 13
}

/// Bytes that end a bare word.
pub open spec fn is_delim(c: u8) -> bool {
    is_space(c) || c == 123 || c == 125 || c == 61 || c == 60 || c == 62 || c == 33 || c == 34
        || c == 35
}

/// Index of the line feed that ends the comment at `i`, or the end of the buffer.
pub open spec fn line_end(b: Seq<u8>, i: int) -> int
    decreases b.len() - i,
{
    if i >= b.len() {
        b.len() as int
    } else if b[i] == 10 {
        i
    } else {
        line_end(b, i + 1)
    }
}

/// Index of the first delimiter at or after `i`.
pub open spec fn bare_end(b: Seq<u8>, i: int) -> int
    decreases b.len() - i,
{
    if i >= b.len() {
        b.len() as int
    } else if is_delim(b[i]) {
        i
    } else {
        bare_end(b, i + 1)
    }
}

/// Index of the quote that closes a string whose text starts at `i`; a backslash keeps
/// the byte after it.
pub open spec fn quote_end(b: Seq<u8>, i: int) -> int
    decreases b.len() - i,
{
    if i >= b.len() {
        b.len() as int
    } else if b[i] == 34 {
        i
    } else if b[i] == 92 {
        if i + 1 >= b.len() {
            b.len() as int
        } else {
            quote_end(b, i + 2)
        }
    } else {
        quote_end(b, i + 1)
    }
}

/// A token with the offset of its first byte.
pub struct TokV {
    pub kind: KindV,
    pub start: int,
}

pub enum KindV {
    Text(Seq<u8>),
    Op(Operator),
    Open,
    Close,
}

pub open spec fn prepend_toks(p: Seq<TokV>, r: Result<Seq<TokV>, int>) -> Result<Seq<TokV>, int> {
    match r {
        Ok(t) => Ok(p + t),
        Err(e) => Err(e),
    }
}

pub open spec fn tok(kind: KindV, start: int) -> TokV {
    TokV { kind, start }
}

/// The tokens of `b` from offset `i` on, or the offset of the first byte that no token
/// can start with.
pub open spec fn lex(b: Seq<u8>, i: int) -> Result<Seq<TokV>, int>
    decreases b.len() - i,
{
    if i < 0 {
        Err(i)
    } else if i >= b.len() {
        Ok(seq![])
    } else {
        let c = b[i];
        let two = i + 1 < b.len() && b[i + 1] == 61;
        if is_space(c) {
            lex(b, i + 1)
        } else if c == 35 {
            let e = line_end(b, i);
            if i < e <= b.len() {
                lex(b, e)
            } else {
                Err(i)
            }
        } else if c == 123 {
            prepend_toks(seq![tok(KindV::Open, i)], lex(b, i + 1))
        } else if c == 125 {
            prepend_toks(seq![tok(KindV::Close, i)], lex(b, i + 1))
        } else if c == 61 {
            if two {
                prepend_toks(seq![tok(KindV::Op(Operator::Exact), i)], lex(b, i + 2))
            } else {
                prepend_toks(seq![tok(KindV::Op(Operator::Equal), i)], lex(b, i + 1))
            }
        } else if c == 60 {
            if two {
                prepend_toks(seq![tok(KindV::Op(Operator::LessThanEqual), i)], lex(b, i + 2))
            } else {
                prepend_toks(seq![tok(KindV::Op(Operator::LessThan), i)], lex(b, i + 1))
            }
        } else if c == 62 {
            if two {
                prepend_toks(seq![tok(KindV::Op(Operator::GreaterThanEqual), i)], lex(b, i + 2))
            } else {
                prepend_toks(seq![tok(KindV::Op(Operator::GreaterThan), i)], lex(b, i + 1))
            }
        } else if c == 33 {
            if two {
                prepend_toks(seq![tok(KindV::Op(Operator::NotEqual), i)], lex(b, i + 2))
            } else {
                Err(i)
            }
        } else if c == 34 {
            let q = quote_end(b, i + 1);
            if i < q < b.len() {
                prepend_toks(seq![tok(KindV::Text(b.subrange(i + 1, q)), i)], lex(b, q + 1))
            } else {
                Err(i)
            }
        } else {
            let e = bare_end(b, i);
            if i < e <= b.len() {
                prepend_toks(seq![tok(KindV::Text(b.subrange(i, e)), i)], lex(b, e))
            } else {
                Err(i)
            }
        }
    }
}

pub enum TokenKind {
    Text(Vec<u8>),
    Op(Operator),
    Open,
    Close,
}

pub struct Token {
    pub kind: TokenKind,
    pub start: usize,
}

pub open spec fn token_view(t: Token) -> TokV {
    TokV {
        kind: match t.kind {
            TokenKind::Text(s) => KindV::Text(s@),
            TokenKind::Op(o) => KindV::Op(o),
            TokenKind::Open => KindV::Open,
            TokenKind::Close => KindV::Close,
        },
        start: t.start as int,
    }
}

pub open spec fn tokens_view(ts: Seq<Token>) -> Seq<TokV> {
    ts.map_values(|t: Token| token_view(t))
}

fn find_line_end(b: &[u8], i: usize) -> (e: usize)
    requires
        i <= b@.len(),
    ensures
        e == line_end(b@, i as int),
        i <= e <= b@.len(),
{
    let mut j = i;
    while j < b.len() && b[j] != 10
        invariant
            i <= j <= b@.len(),
            line_end(b@, i as int) == line_end(b@, j as int),
        decreases b@.len() - j,
    {
        j = j + 1;
    }
    j
}

fn byte_is_delim(c: u8) -> (r: bool)
    ensures
        r == is_delim(c),
{
    c == 32 || c == 9 || c == 10 || c == 13 || c == 123 || c == 125 || c == 61 || c == 60 || c
        == 62 || c == 33 || c == 34 || c == 35
}

fn find_bare_end(b: &[u8], i: usize) -> (e: usize)
    requires
        i <= b@.len(),
    ensures
        e == bare_end(b@, i as int),
        i <= e <= b@.len(),
{
    let mut j = i;
    while j < b.len() && !byte_is_delim(b[j])
        invariant
            i <= j <= b@.len(),
            bare_end(b@, i as int) == bare_end(b@, j as int),
        decreases b@.len() - j,
    {
        j = j + 1;
    }
    j
}

fn find_quote_end(b: &[u8], i: usize) -> (e: usize)
    requires
        i <= b@.len(),
    ensures
        e == quote_end(b@, i as int),
        i <= e <= b@.len(),
{
    let mut j = i;
    while j < b.len()
        invariant
            i <= j <= b@.len(),
            quote_end(b@, i as int) == quote_end(b@, j as int),
        decreases b@.len() - j,
    {
        if b[j] == 34 {
            return j;
        } else if b[j] == 92 {
            if j + 1 >= b.len() {
                return b.len();
            }
            j = j + 2;
        } else {
            j = j + 1;
        }
    }
    b.len()
}

fn copy_range(b: &[u8], from: usize, to: usize) -> (r: Vec<u8>)
    requires
        from <= to <= b@.len(),
    ensures
        r@ == b@.subrange(from as int, to as int),
{
    let mut r: Vec<u8> = Vec::new();
    let mut j = from;
    while j < to
        invariant
            from <= j <= to <= b@.len(),
            r@ == b@.subrange(from as int, j as int),
        decreases to - j,
    {
        r.push(b[j]);
        assert(r@ =~= b@.subrange(from as int, j + 1));
        j = j + 1;
    }
    r
}

proof fn lemma_prepend_push(acc: Seq<TokV>, t: TokV, r: Result<Seq<TokV>, int>)
    ensures
        prepend_toks(acc, prepend_toks(seq![t], r)) == prepend_toks(acc.push(t), r),
{
    match r {
        Ok(s) => {
            assert(acc + (seq![t] + s) =~= acc.push(t) + s);
        },
        Err(_) => {},
    }
}

/// Splits a buffer into tokens, or gives the offset of the first byte that starts none.
pub fn tokenize(b: &[u8]) -> (r: Result<Vec<Token>, usize>)
    ensures
        match r {
            Ok(ts) => lex(b@, 0) == Ok::<Seq<TokV>, int>(tokens_view(ts@)),
            Err(o) => lex(b@, 0) == Err::<Seq<TokV>, int>(o as int),
        },
{
    let mut acc: Vec<Token> = Vec::new();
    let mut i: usize = 0;
    while i < b.len()
        invariant
            i <= b@.len(),
            lex(b@, 0) == prepend_toks(tokens_view(acc@), lex(b@, i as int)),
        decreases b@.len() - i,
    {
        let c = b[i];
        let two = i + 1 < b.len() && b[i + 1] == 61;
        let ghost before = tokens_view(acc@);
        let ghost gi = i as int;
        if c == 32 || c == 9 || c == 10 || c == 13 {
            i = i + 1;
        } else if c == 35 {
            let e = find_line_end(b, i);
            if e <= i {
                return Err(i);
            }
            i = e;
        } else {
            let (kind, next): (TokenKind, usize) = if c == 123 {
                (TokenKind::Open, i + 1)
            } else if c == 125 {
                (TokenKind::Close, i + 1)
            } else if c == 61 {
                if two {
                    (TokenKind::Op(Operator::Exact), i + 2)
                } else {
                    (TokenKind::Op(Operator::Equal), i + 1)
                }
            } else if c == 60 {
                if two {
                    (TokenKind::Op(Operator::LessThanEqual), i + 2)
                } else {
                    (TokenKind::Op(Operator::LessThan), i + 1)
                }
            } else if c == 62 {
                if two {
                    (TokenKind::Op(Operator::GreaterThanEqual), i + 2)
                } else {
                    (TokenKind::Op(Operator::GreaterThan), i + 1)
                }
            } else if c == 33 {
                if two {
                    (TokenKind::Op(Operator::NotEqual), i + 2)
                } else {
                    return Err(i);
                }
            } else if c == 34 {
                let q = find_quote_end(b, i + 1);
                if q >= b.len() {
                    return Err(i);
                }
                (TokenKind::Text(copy_range(b, i + 1, q)), q + 1)
            } else {
                let e = find_bare_end(b, i);
                if e <= i {
                    return Err(i);
                }
                (TokenKind::Text(copy_range(b, i, e)), e)
            };
            let t = Token { kind, start: i };
            proof {
                lemma_prepend_push(before, token_view(t), lex(b@, next as int));
            }
            acc.push(t);
            assert(tokens_view(acc@) =~= before.push(token_view(t)));
            i = next;
        }
    }
    assert(tokens_view(acc@) + seq![] =~= tokens_view(acc@));
    Ok(acc)
}

} // verus!

verus! {

pub open spec fn prepend_nodes(p: Seq<NodeV>, r: Result<(Seq<NodeV>, int), int>) -> Result<
    (Seq<NodeV>, int),
    int,
> {
    match r {
        Ok((s, e)) => Ok((p + s, e)),
        Err(x) => Err(x),
    }
}

pub open spec fn prepend_words(p: Seq<Seq<u8>>, r: Result<(Seq<Seq<u8>>, int), int>) -> Result<
    (Seq<Seq<u8>>, int),
    int,
> {
    match r {
        Ok((s, e)) => Ok((p + s, e)),
        Err(x) => Err(x),
    }
}

/// The words of an array from token `i` up to its closing brace, and the index after it.
pub open spec fn array_at(t: Seq<TokV>, i: int) -> Result<(Seq<Seq<u8>>, int), int>
    decreases t.len() - i,
{
    if i < 0 || i >= t.len() {
        Err(i)
    } else {
        match t[i].kind {
            KindV::Close => Ok((seq![], i + 1)),
            KindV::Text(w) => prepend_words(seq![w], array_at(t, i + 1)),
            _ => Err(i),
        }
    }
}

/// The statements from token `i` on, at nesting `depth`, and the index after them: the
/// end of the tokens at the top, the index after the closing brace below it.
pub open spec fn fields_at(t: Seq<TokV>, i: int, depth: nat) -> Result<(Seq<NodeV>, int), int>
    decreases t.len() - i, 0nat,
{
    if i < 0 {
        Err(i)
    } else if i >= t.len() {
        if depth == 0 {
            Ok((seq![], i))
        } else {
            Err(i)
        }
    } else {
        match t[i].kind {
            KindV::Close => if depth > 0 {
                Ok((seq![], i + 1))
            } else {
                Err(i)
            },
            KindV::Text(k) => if i + 1 < t.len() && t[i + 1].kind is Op {
                match value_at(t, i + 2, depth) {
                    Ok((v, j)) => if i < j <= t.len() {
                        prepend_nodes(
                            seq![NodeV { key: k, op: t[i + 1].kind->Op_0, value: v }],
                            fields_at(t, j, depth),
                        )
                    } else {
                        Err(i)
                    },
                    Err(x) => Err(x),
                }
            } else {
                Err(i)
            },
            _ => Err(i),
        }
    }
}

/// The value that starts at token `i`, and the index after it.
pub open spec fn value_at(t: Seq<TokV>, i: int, depth: nat) -> Result<(ValueV, int), int>
    decreases t.len() - i, 1nat,
{
    if i < 0 || i >= t.len() {
        Err(i)
    } else {
        match t[i].kind {
            KindV::Text(w) => Ok((ValueV::Scalar(w), i + 1)),
            KindV::Open => if i + 1 < t.len() && t[i + 1].kind is Close {
                Ok((ValueV::Object(seq![]), i + 2))
            } else if i + 2 < t.len() && t[i + 1].kind is Text && t[i + 2].kind is Op {
                if depth >= MAX_NESTING {
                    Err(i)
                } else {
                    match fields_at(t, i + 1, depth + 1) {
                        Ok((ns, j)) => Ok((ValueV::Object(ns), j)),
                        Err(x) => Err(x),
                    }
                }
            } else {
                match array_at(t, i + 1) {
                    Ok((ws, j)) => Ok((ValueV::Array(ws), j)),
                    Err(x) => Err(x),
                }
            },
            _ => Err(i),
        }
    }
}

/// Byte offset of token `k`, or the end of the buffer past the last token.
pub open spec fn token_offset(t: Seq<TokV>, k: int, end: int) -> int {
    if 0 <= k < t.len() {
        t[k].start
    } else {
        end
    }
}

/// What reading `b` gives: the top-level statements, or the offset at which it stopped.
pub open spec fn parsed(b: Seq<u8>) -> Result<Seq<NodeV>, int> {
    match lex(b, 0) {
        Err(o) => Err(o),
        Ok(t) => match fields_at(t, 0, 0) {
            Ok((ns, _)) => Ok(ns),
            Err(k) => Err(token_offset(t, k, b.len() as int)),
        },
    }
}

fn parse_array(ts: &Vec<Token>, i0: usize) -> (r: Result<(Vec<Vec<u8>>, usize), usize>)
    ensures
        match r {
            Ok((ws, j)) => array_at(tokens_view(ts@), i0 as int) == Ok::<(Seq<Seq<u8>>, int), int>(
                (ws@.map_values(|x: Vec<u8>| x@), j as int),
            ),
            Err(x) => array_at(tokens_view(ts@), i0 as int) == Err::<(Seq<Seq<u8>>, int), int>(
                x as int,
            ),
        },
{
    let ghost t = tokens_view(ts@);
    let mut acc: Vec<Vec<u8>> = Vec::new();
    let mut i = i0;
    loop
        invariant
            i0 <= i,
            t == tokens_view(ts@),
            array_at(t, i0 as int) == prepend_words(
                acc@.map_values(|x: Vec<u8>| x@),
                array_at(t, i as int),
            ),
        decreases ts@.len() - i,
    {
        if i >= ts.len() {
            return Err(i);
        }
        match &ts[i].kind {
            TokenKind::Close => {
                proof {
                    let a = acc@.map_values(|x: Vec<u8>| x@);
                    assert(a + seq![] =~= a);
                }
                return Ok((acc, i + 1));
            },
            TokenKind::Text(w) => {
                let ghost before = acc@.map_values(|x: Vec<u8>| x@);
                let w2 = copy_range(w.as_slice(), 0, w.len());
                assert(w2@ =~= w@);
                proof {
                    match array_at(t, i + 1) {
                        Ok((s, e)) => {
                            assert(before + (seq![w@] + s) =~= before.push(w@) + s);
                        },
                        Err(_) => {},
                    }
                }
                acc.push(w2);
                assert(acc@.map_values(|x: Vec<u8>| x@) =~= before.push(w@));
                i = i + 1;
            },
            _ => {
                return Err(i);
            },
        }
    }
}

} // verus!

verus! {

fn parse_fields(ts: &Vec<Token>, i0: usize, depth: usize) -> (r: Result<(Vec<Node>, usize), usize>)
    requires
        depth <= MAX_NESTING,
    ensures
        match r {
            Ok((ns, j)) => fields_at(tokens_view(ts@), i0 as int, depth as nat) == Ok::<
                (Seq<NodeV>, int),
                int,
            >((nodes_view(ns@), j as int)),
            Err(x) => fields_at(tokens_view(ts@), i0 as int, depth as nat) == Err::<
                (Seq<NodeV>, int),
                int,
            >(x as int),
        },
    decreases ts@.len() - i0, 0nat,
{
    let ghost t = tokens_view(ts@);
    let mut acc: Vec<Node> = Vec::new();
    let mut i = i0;
    loop
        invariant
            i0 <= i,
            depth <= MAX_NESTING,
            t == tokens_view(ts@),
            fields_at(t, i0 as int, depth as nat) == prepend_nodes(
                nodes_view(acc@),
                fields_at(t, i as int, depth as nat),
            ),
        decreases ts@.len() - i,
    {
        if i >= ts.len() {
            if depth == 0 {
                assert(nodes_view(acc@) + seq![] =~= nodes_view(acc@));
                return Ok((acc, i));
            }
            return Err(i);
        }
        match &ts[i].kind {
            TokenKind::Close => {
                if depth > 0 {
                    assert(nodes_view(acc@) + seq![] =~= nodes_view(acc@));
                    return Ok((acc, i + 1));
                }
                return Err(i);
            },
            TokenKind::Text(k) => {
                if i + 1 >= ts.len() {
                    return Err(i);
                }
                let op = match &ts[i + 1].kind {
                    TokenKind::Op(o) => *o,
                    _ => {
                        return Err(i);
                    },
                };
                let (value, j) = match parse_value(ts, i + 2, depth) {
                    Ok(p) => p,
                    Err(x) => {
                        return Err(x);
                    },
                };
                if j <= i || j > ts.len() {
                    return Err(i);
                }
                let key = copy_range(k.as_slice(), 0, k.len());
                assert(key@ =~= k@);
                let n = Node { key, op, value };
                let ghost before = nodes_view(acc@);
                proof {
                    match fields_at(t, j as int, depth as nat) {
                        Ok((s, e)) => {
                            assert(before + (seq![node_view(n)] + s) =~= before.push(node_view(n))
                                + s);
                        },
                        Err(_) => {},
                    }
                }
                acc.push(n);
                assert(nodes_view(acc@) =~= before.push(node_view(n)));
                i = j;
            },
            _ => {
                return Err(i);
            },
        }
    }
}

fn parse_value(ts: &Vec<Token>, i: usize, depth: usize) -> (r: Result<(Value, usize), usize>)
    requires
        depth <= MAX_NESTING,
    ensures
        match r {
            Ok((v, j)) => value_at(tokens_view(ts@), i as int, depth as nat) == Ok::<
                (ValueV, int),
                int,
            >((value_view(v), j as int)),
            Err(x) => value_at(tokens_view(ts@), i as int, depth as nat) == Err::<
                (ValueV, int),
                int,
            >(x as int),
        },
    decreases ts@.len() - i, 1nat,
{
    if i >= ts.len() {
        return Err(i);
    }
    match &ts[i].kind {
        TokenKind::Text(w) => {
            let s = copy_range(w.as_slice(), 0, w.len());
            assert(s@ =~= w@);
            Ok((Value::Scalar(s), i + 1))
        },
        TokenKind::Open => {
            let next_close = i + 1 < ts.len() && matches!(ts[i + 1].kind, TokenKind::Close);
            let next_field = i + 1 < ts.len() && i + 2 < ts.len() && matches!(ts[i + 1].kind, TokenKind::Text(_))
                && matches!(ts[i + 2].kind, TokenKind::Op(_));
            if next_close {
                let empty: Vec<Node> = Vec::new();
                assert(nodes_view(empty@) =~= seq![]);
                Ok((Value::Object(empty), i + 2))
            } else if next_field {
                if depth >= MAX_NESTING {
                    return Err(i);
                }
                match parse_fields(ts, i + 1, depth + 1) {
                    Ok((ns, j)) => Ok((Value::Object(ns), j)),
                    Err(x) => Err(x),
                }
            } else {
                match parse_array(ts, i + 1) {
                    Ok((ws, j)) => Ok((Value::Array(ws), j)),
                    Err(x) => Err(x),
                }
            }
        },
        _ => Err(i),
    }
}

/// Reads a buffer as a sequence of `key operator value` statements.
pub fn parse_tree(data: &[u8]) -> (r: Result<Vec<Node>, ParseError>)
    ensures
        match r {
            Ok(ns) => parsed(data@) == Ok::<Seq<NodeV>, int>(nodes_view(ns@)),
            Err(ParseError::MalformedSyntax { offset }) => parsed(data@) == Err::<
                Seq<NodeV>,
                int,
            >(offset as int),
        },
{
    let ts = match tokenize(data) {
        Ok(ts) => ts,
        Err(o) => {
            return Err(ParseError::MalformedSyntax { offset: o });
        },
    };
    match parse_fields(&ts, 0, 0) {
        Ok((ns, _)) => Ok(ns),
        Err(k) => {
            let offset = if k < ts.len() {
                ts[k].start
            } else {
                data.len()
            };
            Err(ParseError::MalformedSyntax { offset })
        },
    }
}

} // verus!

verus! {

/// A scalar that can be written without quotes.
pub open spec fn is_word(w: Seq<u8>) -> bool {
    w.len() > 0 && forall|i: int| 0 <= i < w.len() ==> !is_delim(#[trigger] w[i])
}

pub open spec fn scalar_text(w: Seq<u8>) -> Seq<u8> {
    if is_word(w) {
        w
    } else {
        seq![34u8] + w + seq![34u8]
    }
}

pub open spec fn op_text(o: Operator) -> Seq<u8> {
    match o {
        Operator::Equal => seq![61u8],
        Operator::LessThan => seq![60u8],
        Operator::LessThanEqual => seq![60u8, 61u8],
        Operator::GreaterThan => seq![62u8],
        Operator::GreaterThanEqual => seq![62u8, 61u8],
        Operator::NotEqual => seq![33u8, 61u8],
        Operator::Exact => seq![61u8, 61u8],
    }
}

pub open spec fn words_text(ws: Seq<Seq<u8>>) -> Seq<u8>
    decreases ws.len(),
{
    if ws.len() == 0 {
        seq![]
    } else {
        words_text(ws.drop_last()) + scalar_text(ws.last()) + seq![32u8]
    }
}

/// The text of one statement, ending in a line feed.
pub open spec fn node_text(n: NodeV) -> Seq<u8>
    decreases n, 0int,
{
    scalar_text(n.key) + seq![32u8] + op_text(n.op) + seq![32u8] + value_text(n.value) + seq![10u8]
}

pub open spec fn value_text(v: ValueV) -> Seq<u8>
    decreases v, 0int,
{
    match v {
        ValueV::Scalar(w) => scalar_text(w),
        ValueV::Array(ws) => seq![123u8, 32u8] + words_text(ws) + seq![125u8],
        ValueV::Object(ns) => seq![123u8, 10u8] + nodes_text(ns, ns.len() as int) + seq![125u8],
    }
}

/// The text of the first `k` statements of `ns`.
pub open spec fn nodes_text(ns: Seq<NodeV>, k: int) -> Seq<u8>
    decreases ns, k,
{
    if k <= 0 || k > ns.len() {
        seq![]
    } else {
        nodes_text(ns, k - 1) + node_text(ns[k - 1])
    }
}

/// The text of a whole sequence of statements.
pub open spec fn tree_text(ns: Seq<NodeV>) -> Seq<u8> {
    nodes_text(ns, ns.len() as int)
}

fn append_bytes(out: &mut Vec<u8>, b: &[u8])
    ensures
        final(out)@ == old(out)@ + b@,
{
    let ghost start = out@;
    let mut j: usize = 0;
    while j < b.len()
        invariant
            j <= b@.len(),
            out@ == start + b@.subrange(0, j as int),
        decreases b@.len() - j,
    {
        out.push(b[j]);
        assert(out@ =~= start + b@.subrange(0, j + 1));
        j = j + 1;
    }
    assert(b@.subrange(0, b@.len() as int) =~= b@);
}

fn check_word(w: &[u8]) -> (r: bool)
    ensures
        r == is_word(w@),
{
    if w.len() == 0 {
        return false;
    }
    let mut j: usize = 0;
    while j < w.len()
        invariant
            j <= w@.len(),
            forall|i: int| 0 <= i < j ==> !is_delim(#[trigger] w@[i]),
        decreases w@.len() - j,
    {
        if byte_is_delim(w[j]) {
            return false;
        }
        j = j + 1;
    }
    true
}

fn write_scalar(out: &mut Vec<u8>, w: &[u8])
    ensures
        final(out)@ == old(out)@ + scalar_text(w@),
{
    if check_word(w) {
        append_bytes(out, w);
    } else {
        let ghost start = out@;
        out.push(34);
        append_bytes(out, w);
        out.push(34);
        assert(out@ =~= start + (seq![34u8] + w@ + seq![34u8]));
    }
}

fn write_op(out: &mut Vec<u8>, o: Operator)
    ensures
        final(out)@ == old(out)@ + op_text(o),
{
    let ghost start = out@;
    match o {
        Operator::Equal => {
            out.push(61);
        },
        Operator::LessThan => {
            out.push(60);
        },
        Operator::LessThanEqual => {
            out.push(60);
            out.push(61);
        },
        Operator::GreaterThan => {
            out.push(62);
        },
        Operator::GreaterThanEqual => {
            out.push(62);
            out.push(61);
        },
        Operator::NotEqual => {
            out.push(33);
            out.push(61);
        },
        Operator::Exact => {
            out.push(61);
            out.push(61);
        },
    }
    assert(out@ =~= start + op_text(o));
}

/// Appends the text of a statement to `out`.
#[verifier::rlimit(40)]
pub fn write_node(out: &mut Vec<u8>, n: &Node)
    ensures
        final(out)@ == old(out)@ + node_text(node_view(*n)),
    decreases *n, 0int,
{
    let ghost start = out@;
    write_scalar(out, n.key.as_slice());
    out.push(32);
    write_op(out, n.op);
    out.push(32);
    let ghost mid = out@;
    match &n.value {
        Value::Scalar(w) => {
            write_scalar(out, w.as_slice());
        },
        Value::Array(ws) => {
            out.push(123);
            out.push(32);
            let ghost inner = out@;
            let mut k: usize = 0;
            while k < ws.len()
                invariant
                    k <= ws@.len(),
                    out@ == inner + words_text(ws@.map_values(|x: Vec<u8>| x@).take(k as int)),
                decreases ws@.len() - k,
            {
                let ghost wv = ws@.map_values(|x: Vec<u8>| x@);
                write_scalar(out, ws[k].as_slice());
                out.push(32);
                assert(wv.take(k + 1).drop_last() =~= wv.take(k as int));
                k = k + 1;
            }
            out.push(125);
            proof {
                let wv = ws@.map_values(|x: Vec<u8>| x@);
                assert(wv.take(ws@.len() as int) =~= wv);
            }
        },
        Value::Object(ns) => {
            out.push(123);
            out.push(10);
            write_nodes(out, ns);
            out.push(125);
        },
    }
    out.push(10);
    proof {
        let nv = node_view(*n);
        assert(out@ =~= start + node_text(nv));
    }
}

/// Appends the text of a sequence of statements to `out`.
pub fn write_nodes(out: &mut Vec<u8>, ns: &Vec<Node>)
    ensures
        final(out)@ == old(out)@ + tree_text(nodes_view(ns@)),
    decreases *ns, 1int,
{
    let ghost start = out@;
    let ghost nv = nodes_view(ns@);
    let mut k: usize = 0;
    while k < ns.len()
        invariant
            k <= ns@.len(),
            nv == nodes_view(ns@),
            out@ == start + nodes_text(nv, k as int),
        decreases ns@.len() - k,
    {
        write_node(out, &ns[k]);
        assert(out@ =~= start + nodes_text(nv, k + 1));
        k = k + 1;
    }
}

} // verus!

verus! {

/// A statement whose key and scalar value are both bare words.
pub open spec fn is_flat_word_triple(n: NodeV) -> bool {
    is_word(n.key) && n.value is Scalar && is_word(n.value->Scalar_0)
}

pub open spec fn kinds(t: Seq<TokV>) -> Seq<KindV> {
    t.map_values(|x: TokV| x.kind)
}

/// The token kinds that a run of flat statements reads as.
pub open spec fn flat_kinds(ms: Seq<NodeV>) -> Seq<KindV>
    decreases ms.len(),
{
    if ms.len() == 0 {
        seq![]
    } else {
        seq![KindV::Text(ms[0].key), KindV::Op(ms[0].op), KindV::Text(ms[0].value->Scalar_0)]
            + flat_kinds(ms.drop_first())
    }
}

proof fn lemma_bare_end_word(b: Seq<u8>, q: int, w: Seq<u8>, i: int)
    requires
        0 <= q,
        0 <= i <= w.len(),
        q + w.len() < b.len(),
        b.subrange(q, q + w.len()) == w,
        is_word(w),
        is_delim(b[q + w.len()]),
    ensures
        bare_end(b, q + i) == q + w.len(),
    decreases w.len() - i,
{
    if i < w.len() {
        assert(b[q + i] == b.subrange(q, q + w.len())[i]);
        lemma_bare_end_word(b, q, w, i + 1);
    }
}

proof fn lemma_lex_word(b: Seq<u8>, q: int, w: Seq<u8>)
    requires
        0 <= q,
        q + w.len() < b.len(),
        b.subrange(q, q + w.len()) == w,
        is_word(w),
        is_delim(b[q + w.len()]),
    ensures
        lex(b, q) == prepend_toks(seq![tok(KindV::Text(w), q)], lex(b, q + w.len())),
{
    lemma_bare_end_word(b, q, w, 0);
    assert(b[q] == b.subrange(q, q + w.len())[0]);
    assert(!is_delim(w[0]));
}

proof fn lemma_lex_op(b: Seq<u8>, q: int, o: Operator)
    requires
        0 <= q,
        q + op_text(o).len() < b.len(),
        b.subrange(q, q + op_text(o).len()) == op_text(o),
        b[q + op_text(o).len()] == 32,
    ensures
        lex(b, q) == prepend_toks(seq![tok(KindV::Op(o), q)], lex(b, q + op_text(o).len())),
{
    let t = op_text(o);
    assert(b[q] == b.subrange(q, q + t.len())[0]);
    if t.len() == 2 {
        assert(b[q + 1] == b.subrange(q, q + t.len())[1]);
    }
}

proof fn lemma_prepend3(a: TokV, b: TokV, c: TokV, r: Result<Seq<TokV>, int>)
    ensures
        prepend_toks(seq![a], prepend_toks(seq![b], prepend_toks(seq![c], r))) == prepend_toks(
            seq![a, b, c],
            r,
        ),
{
    match r {
        Ok(s) => {
            assert(seq![a] + (seq![b] + (seq![c] + s)) =~= seq![a, b, c] + s);
        },
        Err(_) => {},
    }
}

/// Reading the text of one flat statement gives its three tokens.
proof fn lemma_lex_node(b: Seq<u8>, p: int, n: NodeV)
    requires
        0 <= p,
        is_flat_word_triple(n),
        p + node_text(n).len() <= b.len(),
        b.subrange(p, p + node_text(n).len()) == node_text(n),
    ensures
        lex(b, p) == prepend_toks(
            seq![
                tok(KindV::Text(n.key), p),
                tok(KindV::Op(n.op), p + n.key.len() + 1),
                tok(KindV::Text(n.value->Scalar_0), p + n.key.len() + 2 + op_text(n.op).len()),
            ],
            lex(b, p + node_text(n).len()),
        ),
{
    let k = n.key;
    let w = n.value->Scalar_0;
    let o = op_text(n.op);
    let t = node_text(n);
    assert(t =~= k + seq![32u8] + o + seq![32u8] + w + seq![10u8]);
    let q1 = p + k.len();
    let q2 = q1 + 1;
    let q3 = q2 + o.len();
    let q4 = q3 + 1;
    let q5 = q4 + w.len();
    assert forall|i: int| 0 <= i < t.len() implies b[p + i] == #[trigger] t[i] by {
        assert(b.subrange(p, p + t.len())[i] == b[p + i]);
    }
    assert(b[q1] == t[k.len() as int]);
    assert(b[q3] == t[(k.len() + 1 + o.len()) as int]);
    assert(b[q5] == t[(k.len() + 2 + o.len() + w.len()) as int]);
    assert(b.subrange(p, q1) =~= k) by {
        assert forall|i: int| 0 <= i < k.len() implies b.subrange(p, q1)[i] == k[i] by {
            assert(t[i] == k[i]);
        }
    }
    assert(b.subrange(q2, q3) =~= o) by {
        assert forall|i: int| 0 <= i < o.len() implies b.subrange(q2, q3)[i] == o[i] by {
            assert(t[k.len() + 1 + i] == o[i]);
        }
    }
    assert(b.subrange(q4, q5) =~= w) by {
        assert forall|i: int| 0 <= i < w.len() implies b.subrange(q4, q5)[i] == w[i] by {
            assert(t[k.len() + 2 + o.len() + i] == w[i]);
        }
    }
    lemma_lex_word(b, p, k);
    assert(lex(b, q1) == lex(b, q2));
    lemma_lex_op(b, q2, n.op);
    assert(lex(b, q3) == lex(b, q4));
    lemma_lex_word(b, q4, w);
    assert(lex(b, q5) == lex(b, q5 + 1));
    lemma_prepend3(
        tok(KindV::Text(k), p),
        tok(KindV::Op(n.op), q2),
        tok(KindV::Text(w), q4),
        lex(b, q5 + 1),
    );
}

proof fn lemma_nodes_text_prefix(ns: Seq<NodeV>, m: int, k: int)
    requires
        0 <= m <= k <= ns.len(),
    ensures
        nodes_text(ns, k).subrange(0, nodes_text(ns, m).len() as int) == nodes_text(ns, m),
        nodes_text(ns, m).len() <= nodes_text(ns, k).len(),
    decreases k - m,
{
    if m < k {
        lemma_nodes_text_prefix(ns, m, k - 1);
        let a = nodes_text(ns, k - 1);
        assert(nodes_text(ns, k) == a + node_text(ns[k - 1]));
        assert((a + node_text(ns[k - 1])).subrange(0, nodes_text(ns, m).len() as int) =~= a.subrange(
            0,
            nodes_text(ns, m).len() as int,
        ));
    } else {
        assert(nodes_text(ns, k).subrange(0, nodes_text(ns, k).len() as int) =~= nodes_text(ns, k));
    }
}

/// From the start of statement `j` on, the text of flat statements reads as their tokens.
proof fn lemma_lex_flat(ns: Seq<NodeV>, j: int)
    requires
        0 <= j <= ns.len(),
        forall|i: int| 0 <= i < ns.len() ==> is_flat_word_triple(#[trigger] ns[i]),
    ensures
        lex(tree_text(ns), nodes_text(ns, j).len() as int) is Ok,
        kinds(lex(tree_text(ns), nodes_text(ns, j).len() as int)->Ok_0) == flat_kinds(
            ns.subrange(j, ns.len() as int),
        ),
    decreases ns.len() - j,
{
    let b = tree_text(ns);
    let p = nodes_text(ns, j).len() as int;
    lemma_nodes_text_prefix(ns, j, ns.len() as int);
    if j == ns.len() {
        assert(ns.subrange(j, ns.len() as int) =~= seq![]);
        assert(kinds(seq![]) =~= seq![]);
    } else {
        lemma_lex_flat(ns, j + 1);
        lemma_nodes_text_prefix(ns, j + 1, ns.len() as int);
        let n = ns[j];
        let t = node_text(n);
        assert(nodes_text(ns, j + 1) == nodes_text(ns, j) + t);
        assert(b.subrange(p, p + t.len()) =~= t) by {
            let c = nodes_text(ns, j + 1);
            assert(b.subrange(0, c.len() as int) == c);
            assert forall|i: int| 0 <= i < t.len() implies b.subrange(p, p + t.len())[i] == t[i] by {
                assert(b[p + i] == b.subrange(0, c.len() as int)[p + i]);
                assert(c[p + i] == t[i]);
            }
        }
        lemma_lex_node(b, p, n);
        let rest = lex(b, p + t.len())->Ok_0;
        let three = seq![
            tok(KindV::Text(n.key), p),
            tok(KindV::Op(n.op), p + n.key.len() + 1),
            tok(KindV::Text(n.value->Scalar_0), p + n.key.len() + 2 + op_text(n.op).len()),
        ];
        assert(kinds(three + rest) =~= kinds(three) + kinds(rest));
        assert(ns.subrange(j, ns.len() as int).drop_first() =~= ns.subrange(j + 1, ns.len() as int));
        assert(ns.subrange(j, ns.len() as int)[0] == n);
        assert(kinds(three) =~= seq![KindV::Text(n.key), KindV::Op(n.op), KindV::Text(n.value->Scalar_0)]);
    }
}

/// Tokens whose kinds are those of flat statements read back as those statements.
proof fn lemma_fields_flat(t: Seq<TokV>, i: int, ms: Seq<NodeV>)
    requires
        0 <= i <= t.len(),
        kinds(t.subrange(i, t.len() as int)) == flat_kinds(ms),
        forall|j: int| 0 <= j < ms.len() ==> is_flat_word_triple(#[trigger] ms[j]),
    ensures
        fields_at(t, i, 0) == Ok::<(Seq<NodeV>, int), int>((ms, t.len() as int)),
    decreases ms.len(),
{
    let ks = kinds(t.subrange(i, t.len() as int));
    if ms.len() == 0 {
        assert(ks.len() == 0);
        assert(i == t.len());
        assert(ms =~= seq![]);
    } else {
        let m = ms[0];
        assert(is_flat_word_triple(ms[0]));
        assert(ks.len() == 3 + flat_kinds(ms.drop_first()).len());
        assert(ks.len() == t.len() - i);
        assert(i + 3 <= t.len());
        assert(t[i].kind == ks[0]);
        assert(t[i + 1].kind == ks[1]);
        assert(t[i + 2].kind == ks[2]);
        assert(kinds(t.subrange(i + 3, t.len() as int)) =~= ks.subrange(3, ks.len() as int));
        assert(ks.subrange(3, ks.len() as int) =~= flat_kinds(ms.drop_first()));
        assert forall|j: int| 0 <= j < ms.drop_first().len() implies is_flat_word_triple(#[trigger] ms.drop_first()[j]) by {
            assert(ms.drop_first()[j] == ms[j + 1]);
        }
        lemma_fields_flat(t, i + 3, ms.drop_first());
        assert(value_at(t, i + 2, 0) == Ok::<(ValueV, int), int>((ValueV::Scalar(m.value->Scalar_0), i + 3)));
        assert(NodeV { key: m.key, op: m.op, value: ValueV::Scalar(m.value->Scalar_0) } == m);
        assert(seq![m] + ms.drop_first() =~= ms);
        assert(t[i + 1].kind->Op_0 == m.op);
        assert(fields_at(t, i, 0) == prepend_nodes(
            seq![NodeV { key: m.key, op: m.op, value: ValueV::Scalar(m.value->Scalar_0) }],
            fields_at(t, i + 3, 0),
        ));
    }
}

/// Writing statements whose keys and scalar values are bare words, then reading the
/// text back, gives the same statements: keys, operators, values and order, repeated
/// keys included.
pub proof fn lemma_flat_round_trip(ns: Seq<NodeV>)
    requires
        forall|i: int| 0 <= i < ns.len() ==> is_flat_word_triple(#[trigger] ns[i]),
    ensures
        parsed(tree_text(ns)) == Ok::<Seq<NodeV>, int>(ns),
{
    lemma_lex_flat(ns, 0);
    assert(nodes_text(ns, 0).len() == 0);
    let t = lex(tree_text(ns), 0)->Ok_0;
    assert(ns.subrange(0, ns.len() as int) =~= ns);
    assert(t.subrange(0, t.len() as int) =~= t);
    lemma_fields_flat(t, 0, ns);
}

} // verus!
