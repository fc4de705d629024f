//! A small, bounded parser for Valve KeyValues text files.
//!
//! Used for `libraryfolders.vdf` and `appmanifest_*.acf`. Both are read-only inputs from disk that
//! are treated as untrusted, so the parser has hard limits on size, depth and token count and never
//! recurses without a bound.

use vstd::prelude::*;
use vstd::utf8::{
    char_is_scalar, encode_scalar, encode_utf8, has_width_1_encoding, has_width_2_encoding, has_width_3_encoding,
};

use crate::path::FilePath;
use crate::text::{decimal, decimal_text, law_utf8_is_kept, lossy, lowered, same_ignoring_case, utf8_text};

verus! {

pub const MAX_FILE_BYTES: u64 = 8_388_608;

pub const MAX_DEPTH: usize = 32;

pub const MAX_TOKENS: usize = 400_000;

#[derive(Debug, PartialEq)]
pub enum Value {
    Str(String),
    Obj(Vec<(String, Value)>),
}

/// What a value says.
pub enum ValueView {
    Str(Seq<char>),
    Obj(Seq<(Seq<char>, ValueView)>),
}

/// What the pairs of a block say.
pub open spec fn pairs_view(pairs: Seq<(String, Value)>) -> Seq<(Seq<char>, ValueView)>
    decreases pairs,
{
    Seq::new(
        pairs.len(),
        |i: int|
            if 0 <= i < pairs.len() {
                (pairs[i].0@, pairs[i].1.model())
            } else {
                arbitrary()
            },
    )
}

/// The value of the first pair whose key is the given one in all but case.
pub open spec fn first_under(pairs: Seq<(Seq<char>, ValueView)>, key: Seq<char>) -> Option<
    ValueView,
>
    decreases pairs.len(),
{
    if pairs.len() == 0 {
        None
    } else if lowered(pairs[0].0) == lowered(key) {
        Some(pairs[0].1)
    } else {
        first_under(pairs.skip(1), key)
    }
}

impl ValueView {
    pub open spec fn pairs(self) -> Seq<(Seq<char>, ValueView)> {
        match self {
            ValueView::Str(_) => Seq::empty(),
            ValueView::Obj(pairs) => pairs,
        }
    }

    pub open spec fn under(self, key: Seq<char>) -> Option<ValueView> {
        first_under(self.pairs(), key)
    }

    pub open spec fn text(self) -> Option<Seq<char>> {
        match self {
            ValueView::Str(text) => Some(text),
            ValueView::Obj(_) => None,
        }
    }

    /// How deep blocks stand inside one another.
    pub open spec fn depth(self) -> nat
        decreases self,
    {
        match self {
            ValueView::Str(_) => 0,
            ValueView::Obj(pairs) => 1 + pairs_depth(pairs),
        }
    }

    /// How many texts there are, keys and values alike.
    pub open spec fn texts(self) -> nat
        decreases self,
    {
        match self {
            ValueView::Str(_) => 1,
            ValueView::Obj(pairs) => pairs_texts(pairs),
        }
    }
}

pub open spec fn pairs_depth(pairs: Seq<(Seq<char>, ValueView)>) -> nat
    decreases pairs,
{
    if pairs.len() == 0 {
        0
    } else {
        let first = pairs[0].1.depth();
        let rest = pairs_depth(pairs.subrange(1, pairs.len() as int));
        if first > rest {
            first
        } else {
            rest
        }
    }
}

pub open spec fn pairs_texts(pairs: Seq<(Seq<char>, ValueView)>) -> nat
    decreases pairs,
{
    if pairs.len() == 0 {
        0
    } else {
        1 + pairs[0].1.texts() + pairs_texts(pairs.subrange(1, pairs.len() as int))
    }
}

impl Value {
    pub open spec fn model(self) -> ValueView
        decreases self,
    {
        match self {
            Value::Str(text) => ValueView::Str(text@),
            Value::Obj(pairs) => ValueView::Obj(pairs_view(pairs@)),
        }
    }

    /// Look up a direct child by key, case-insensitively as Steam does.
    pub fn get(&self, key: &str) -> (found: Option<&Value>)
        ensures
            found is Some <==> self.model().under(key@) is Some,
            found matches Some(value) ==> Some(value.model()) == self.model().under(key@),
    {
        match self {
            Value::Obj(pairs) => {
                let ghost all = pairs_view(pairs@);
                let mut i: usize = 0;
                assert(all.skip(0) =~= all);
                while i < pairs.len()
                    invariant
                        i <= pairs.len(),
                        all == pairs_view(pairs@),
                        self.model().under(key@) == first_under(all.skip(i as int), key@),
                    decreases pairs.len() - i,
                {
                    assert(all.skip(i as int)[0] == (pairs@[i as int].0@, pairs@[i as int].1.model()));
                    if same_ignoring_case(pairs[i].0.as_str(), key) {
                        return Some(&pairs[i].1);
                    }
                    assert(all.skip(i as int).skip(1) =~= all.skip(i + 1));
                    i = i + 1;
                }
                None
            },
            Value::Str(_) => None,
        }
    }

    pub fn as_str(&self) -> (text: Option<&str>)
        ensures
            text is Some <==> self.model().text() is Some,
            text matches Some(text) ==> Some(text@) == self.model().text(),
    {
        match self {
            Value::Str(text) => Some(text.as_str()),
            Value::Obj(_) => None,
        }
    }

    /// Direct children, in file order. Empty for a plain string.
    pub fn entries(&self) -> (pairs: &[(String, Value)])
        ensures
            pairs_view(pairs@) == self.model().pairs(),
    {
        match self {
            Value::Obj(pairs) => pairs.as_slice(),
            Value::Str(_) => {
                let none: &[(String, Value)] = &[];
                assert(pairs_view(none@) =~= Seq::empty());
                none
            },
        }
    }
}

#[derive(Debug)]
pub struct ParseError {
    pub message: String,
    pub offset: usize,
}

/// A message and the byte it is about.
pub type Fault = (Seq<char>, int);

impl ParseError {
    pub open spec fn fault(self) -> Fault {
        (self.message@, self.offset as int)
    }

    /// The error in words.
    pub fn describe(&self) -> (text: String)
        ensures
            text@ == self.message@ + " at byte "@ + decimal_text(self.offset as nat),
    {
        let mut text = self.message.clone();
        text.push_str(" at byte ");
        text.push_str(decimal(self.offset as u64).as_str());
        text
    }
}

pub open spec fn blank(byte: u8) -> bool {
    byte == 9 || byte == 10 || byte == 12 || byte == 13 || byte == 32
}

pub open spec fn letter(byte: u8) -> bool {
    65 <= byte <= 90 || 97 <= byte <= 122
}

/// Does a `//` comment or a `#base`-style directive start here? Either runs to the end of its line.
pub open spec fn skipped_line(b: Seq<u8>, at: int) -> bool {
    &&& 0 <= at
    &&& at + 1 < b.len()
    &&& (b[at] == 47 && b[at + 1] == 47) || (b[at] == 35 && letter(b[at + 1]))
}

/// Where the line that `at` is in ends: at its line feed, or at the end of the bytes.
pub open spec fn line_end(b: Seq<u8>, at: int) -> int
    decreases b.len() - at,
{
    if at >= b.len() || b[at] == 10 {
        at
    } else {
        line_end(b, at + 1)
    }
}

pub proof fn lemma_line_end(b: Seq<u8>, at: int)
    requires
        0 <= at <= b.len(),
    ensures
        at <= line_end(b, at) <= b.len(),
    decreases b.len() - at,
{
    if at < b.len() && b[at] != 10 {
        lemma_line_end(b, at + 1);
    }
}

/// The first byte from `at` on that is no white space and in no comment or directive.
pub open spec fn after_trivia(b: Seq<u8>, at: int) -> int
    decreases b.len() - at,
{
    if at < 0 || at >= b.len() {
        at
    } else if blank(b[at]) {
        after_trivia(b, at + 1)
    } else if skipped_line(b, at) {
        proof {
            lemma_line_end(b, at + 1);
        }
        after_trivia(b, line_end(b, at + 1))
    } else {
        at
    }
}

pub proof fn lemma_after_trivia(b: Seq<u8>, at: int)
    requires
        0 <= at <= b.len(),
    ensures
        at <= after_trivia(b, at) <= b.len(),
    decreases b.len() - at,
{
    if at < b.len() {
        if blank(b[at]) {
            lemma_after_trivia(b, at + 1);
        } else if skipped_line(b, at) {
            lemma_line_end(b, at + 1);
            lemma_after_trivia(b, line_end(b, at + 1));
        }
    }
}

/// What a backslash and the byte behind it stand for inside quotes. An escape that is not known
/// stands for itself.
pub open spec fn escape(byte: u8) -> Seq<char> {
    if byte == 110 {
        seq!['\n']
    } else if byte == 116 {
        seq!['\t']
    } else if byte == 114 {
        seq!['\r']
    } else if byte == 92 {
        seq!['\\']
    } else if byte == 34 {
        seq!['"']
    } else {
        seq!['\\', byte as char]
    }
}

/// How many bytes are taken together, by the first of them.
pub open spec fn width(first: u8) -> int {
    if first < 0x80 {
        1
    } else if first >= 0xf0 {
        4
    } else if first >= 0xe0 {
        3
    } else {
        2
    }
}

pub open spec fn char_end(b: Seq<u8>, at: int) -> int {
    if at + width(b[at]) < b.len() {
        at + width(b[at])
    } else {
        b.len() as int
    }
}

pub open spec fn char_text(b: Seq<u8>, at: int) -> Seq<char> {
    if b[at] < 0x80 {
        seq![b[at] as char]
    } else {
        utf8_text(b.subrange(at, char_end(b, at)))
    }
}

/// A text read, and where reading goes on.
pub type Token = Result<(Seq<char>, int), Fault>;

pub open spec fn with_front(front: Seq<char>, rest: Token) -> Token {
    match rest {
        Ok((text, end)) => Ok((front + text, end)),
        Err(fault) => Err(fault),
    }
}

/// What stands between `at`, inside quotes, and the closing quote.
pub open spec fn quoted_rest(b: Seq<u8>, at: int) -> Token
    decreases b.len() - at,
{
    if at < 0 || at >= b.len() {
        Err(("unterminated quoted string"@, at))
    } else if b[at] == 34 {
        Ok((Seq::empty(), at + 1))
    } else if b[at] == 92 {
        if at + 1 >= b.len() {
            Err(("unterminated escape sequence"@, at + 1))
        } else {
            with_front(escape(b[at + 1]), quoted_rest(b, at + 2))
        }
    } else {
        with_front(char_text(b, at), quoted_rest(b, char_end(b, at)))
    }
}

pub open spec fn ends_bare(byte: u8) -> bool {
    blank(byte) || byte == 123 || byte == 125 || byte == 34
}

pub open spec fn bare_end(b: Seq<u8>, at: int) -> int
    decreases b.len() - at,
{
    if at < 0 || at >= b.len() || ends_bare(b[at]) {
        at
    } else {
        bare_end(b, at + 1)
    }
}

proof fn lemma_bare_end(b: Seq<u8>, at: int)
    requires
        0 <= at <= b.len(),
    ensures
        at <= bare_end(b, at) <= b.len(),
    decreases b.len() - at,
{
    if at < b.len() && !ends_bare(b[at]) {
        lemma_bare_end(b, at + 1);
    }
}

proof fn lemma_quoted_rest(b: Seq<u8>, at: int)
    requires
        0 <= at <= b.len(),
    ensures
        quoted_rest(b, at) matches Ok((_, end)) ==> at < end <= b.len(),
    decreases b.len() - at,
{
    if at < b.len() {
        if b[at] == 92 {
            if at + 1 < b.len() {
                lemma_quoted_rest(b, at + 2);
            }
        } else if b[at] != 34 {
            lemma_quoted_rest(b, char_end(b, at));
        }
    }
}

/// The token at `at`, where `before` tokens came before it.
pub open spec fn token(b: Seq<u8>, at: int, before: int) -> Token {
    if before + 1 > MAX_TOKENS {
        Err(("file contains more tokens than the parser allows"@, at))
    } else if at >= b.len() {
        Err(("expected a token"@, at))
    } else if b[at] == 34 {
        quoted_rest(b, at + 1)
    } else if bare_end(b, at) == at {
        Err(("expected a token"@, at))
    } else {
        Ok((utf8_text(b.subrange(at, bare_end(b, at))), bare_end(b, at)))
    }
}

pub proof fn lemma_token(b: Seq<u8>, at: int, before: int)
    requires
        0 <= at <= b.len(),
    ensures
        token(b, at, before) matches Ok((_, end)) ==> at < end <= b.len() && before < MAX_TOKENS,
{
    if at < b.len() {
        lemma_bare_end(b, at);
        lemma_quoted_rest(b, at + 1);
    }
}

pub type PairView = (Seq<char>, ValueView);

/// The pairs of a block, where reading goes on, and how many tokens have come by then.
pub type Block = Result<(Seq<PairView>, int, int), Fault>;

pub open spec fn with_pairs(front: Seq<PairView>, rest: Block) -> Block {
    match rest {
        Ok((pairs, end, tokens)) => Ok((front + pairs, end, tokens)),
        Err(fault) => Err(fault),
    }
}

/// The pairs from `at` to the end of the block that `at` is in: the closing brace, or the end of
/// the bytes for the root. A pair is a token and then a token or a block in braces.
pub open spec fn block(b: Seq<u8>, at: int, tokens: int, depth: int, root: bool) -> Block
    decreases MAX_DEPTH + 1 - depth, b.len() - at,
{
    let here = after_trivia(b, at);
    if at < 0 || depth > MAX_DEPTH {
        Err(("nesting is deeper than the parser allows"@, at))
    } else if here >= b.len() {
        if root {
            Ok((Seq::empty(), here, tokens))
        } else {
            Err(("file ended inside a block"@, here))
        }
    } else if b[here] == 125 {
        if root {
            Err(("closing brace without a matching block"@, here))
        } else {
            Ok((Seq::empty(), here + 1, tokens))
        }
    } else {
        match token(b, here, tokens) {
            Err(fault) => Err(fault),
            Ok((key, key_end)) => {
                let next = after_trivia(b, key_end);
                if next >= b.len() {
                    Err(("key has no value"@, next))
                } else if b[next] == 123 {
                    match block(b, next + 1, tokens + 1, depth + 1, false) {
                        Err(fault) => Err(fault),
                        Ok((inner, end, used)) => if at < end <= b.len() {
                            with_pairs(
                                seq![(key, ValueView::Obj(inner))],
                                block(b, end, used, depth, root),
                            )
                        } else {
                            Err((Seq::empty(), at))
                        },
                    }
                } else {
                    match token(b, next, tokens + 1) {
                        Err(fault) => Err(fault),
                        Ok((text, end)) => {
                            proof {
                                lemma_after_trivia(b, at);
                                lemma_token(b, here, tokens);
                                lemma_after_trivia(b, key_end);
                                lemma_token(b, next, tokens + 1);
                            }
                            with_pairs(
                                seq![(key, ValueView::Str(text))],
                                block(b, end, tokens + 2, depth, root),
                            )
                        },
                    }
                }
            },
        }
    }
}

/// What a document says: the pairs of its root block, or what is wrong with it and where.
pub open spec fn document(b: Seq<u8>) -> Result<Seq<PairView>, Fault> {
    match block(b, 0, 0, 0, true) {
        Ok((pairs, _, _)) => Ok(pairs),
        Err(fault) => Err(fault),
    }
}

struct Parser<'a> {
    bytes: &'a [u8],
    pos: usize,
    tokens: usize,
}

impl<'a> Parser<'a> {
    spec fn wf(self) -> bool {
        &&& self.pos <= self.bytes@.len() <= usize::MAX
        &&& self.tokens <= MAX_TOKENS
    }

    fn err(&self, message: &str) -> (error: ParseError)
        ensures
            error.fault() == (message@, self.pos as int),
    {
        ParseError { message: message.to_string(), offset: self.pos }
    }

    fn peek(&self) -> (byte: Option<u8>)
        ensures
            byte == if self.pos < self.bytes@.len() {
                Some(self.bytes@[self.pos as int])
            } else {
                None
            },
    {
        if self.pos < self.bytes.len() {
            Some(self.bytes[self.pos])
        } else {
            None
        }
    }

    /// Skip whitespace, `//` line comments and `#base`-style directives.
    fn skip_trivia(&mut self)
        requires
            old(self).wf(),
        ensures
            final(self).wf(),
            final(self).bytes == old(self).bytes,
            final(self).tokens == old(self).tokens,
            final(self).pos == after_trivia(old(self).bytes@, old(self).pos as int),
    {
        let b = self.bytes;
        let ghost start = self.pos as int;
        while self.pos < b.len()
            invariant
                self.wf(),
                self.bytes == b,
                self.tokens == old(self).tokens,
                after_trivia(b@, self.pos as int) == after_trivia(b@, start),
            ensures
                self.pos == after_trivia(b@, start),
            decreases b.len() - self.pos,
        {
            let byte = b[self.pos];
            if is_blank(byte) {
                self.pos = self.pos + 1;
            } else if self.pos + 1 < b.len() && ((byte == 47 && b[self.pos + 1] == 47) || (byte == 35
                && is_letter(b[self.pos + 1]))) {
                let ghost from = self.pos + 1;
                proof {
                    lemma_line_end(b@, from);
                }
                self.pos = self.pos + 1;
                while self.pos < b.len() && b[self.pos] != 10
                    invariant
                        from <= self.pos <= b.len(),
                        self.bytes == b,
                        self.tokens == old(self).tokens,
                        line_end(b@, self.pos as int) == line_end(b@, from),
                    decreases b.len() - self.pos,
                {
                    self.pos = self.pos + 1;
                }
            } else {
                break;
            }
        }
    }

    fn parse_token(&mut self) -> (read: Result<String, ParseError>)
        requires
            old(self).wf(),
        ensures
            final(self).bytes == old(self).bytes,
            read is Ok ==> final(self).wf() && final(self).tokens == old(self).tokens + 1,
            reads(read, final(self).pos as int, token(old(self).bytes@, old(self).pos as int, old(self).tokens as int)),
    {
        self.tokens = self.tokens + 1;
        if self.tokens > MAX_TOKENS {
            return Err(self.err("file contains more tokens than the parser allows"));
        }
        match self.peek() {
            Some(34) => self.parse_quoted(),
            Some(_) => self.parse_bare(),
            None => Err(self.err("expected a token")),
        }
    }

    fn parse_quoted(&mut self) -> (read: Result<String, ParseError>)
        requires
            old(self).wf(),
            old(self).pos < old(self).bytes@.len(),
        ensures
            final(self).bytes == old(self).bytes,
            final(self).tokens == old(self).tokens,
            final(self).wf(),
            reads(read, final(self).pos as int, quoted_rest(old(self).bytes@, old(self).pos + 1)),
    {
        let ghost b = self.bytes@;
        self.pos = self.pos + 1;  // opening quote
        let ghost whole = quoted_rest(b, self.pos as int);
        let mut out = String::new();
        assert(with_front(out@, whole) == whole) by {
            if let Ok((text, end)) = whole {
                assert(out@ + text =~= text);
            }
        }
        while self.pos < self.bytes.len()
            invariant
                self.wf(),
                self.bytes@ == b,
                self.bytes == old(self).bytes,
                self.tokens == old(self).tokens,
                whole == quoted_rest(b, old(self).pos + 1),
                whole == with_front(out@, quoted_rest(b, self.pos as int)),
            decreases self.bytes.len() - self.pos,
        {
            let ghost at = self.pos as int;
            let ghost before = out@;
            let byte = self.bytes[self.pos];
            self.pos = self.pos + 1;
            if byte == 34 {
                assert(before + Seq::<char>::empty() =~= before);
                return Ok(out);
            } else if byte == 92 {
                if self.pos >= self.bytes.len() {
                    return Err(self.err("unterminated escape sequence"));
                }
                let escaped = self.bytes[self.pos];
                self.pos = self.pos + 1;
                if escaped == 110 {
                    out.push('\n');
                } else if escaped == 116 {
                    out.push('\t');
                } else if escaped == 114 {
                    out.push('\r');
                } else if escaped == 92 {
                    out.push('\\');
                } else if escaped == 34 {
                    out.push('"');
                } else {
                    // Valve's own writer emits unknown escapes literally.
                    out.push('\\');
                    out.push(escaped as char);
                }
                assert(out@ =~= before + escape(escaped));
                assert(at + 2 == self.pos);
            } else {
                self.push_utf8(&mut out, byte);
            }
            proof {
                lemma_front_front(before, if byte == 92 { escape(b[at + 1]) } else { char_text(b, at) },
                    quoted_rest(b, self.pos as int));
            }
        }
        Err(self.err("unterminated quoted string"))
    }

    fn parse_bare(&mut self) -> (read: Result<String, ParseError>)
        requires
            old(self).wf(),
            1 <= old(self).tokens,
            old(self).pos < old(self).bytes@.len(),
            old(self).bytes@[old(self).pos as int] != 34,
        ensures
            final(self).bytes == old(self).bytes,
            final(self).tokens == old(self).tokens,
            final(self).wf(),
            reads(read, final(self).pos as int, token(old(self).bytes@, old(self).pos as int, old(self).tokens - 1)),
    {
        let start = self.pos;
        while self.pos < self.bytes.len() && !is_bare_end(self.bytes[self.pos])
            invariant
                start <= self.pos,
                self.wf(),
                self.bytes == old(self).bytes,
                self.tokens == old(self).tokens,
                bare_end(self.bytes@, self.pos as int) == bare_end(self.bytes@, start as int),
            decreases self.bytes.len() - self.pos,
        {
            self.pos = self.pos + 1;
        }
        if start == self.pos {
            return Err(self.err("expected a token"));
        }
        Ok(lossy(vstd::slice::slice_subrange(self.bytes, start, self.pos)))
    }

    /// Rebuild a UTF-8 char that `parse_quoted` walked into byte by byte.
    fn push_utf8(&mut self, out: &mut String, first: u8)
        requires
            old(self).wf(),
            1 <= old(self).pos,
            old(self).bytes@[old(self).pos - 1] == first,
        ensures
            final(self).wf(),
            final(self).bytes == old(self).bytes,
            final(self).tokens == old(self).tokens,
            final(self).pos == char_end(old(self).bytes@, old(self).pos - 1),
            final(out)@ == old(out)@ + char_text(old(self).bytes@, old(self).pos - 1),
    {
        if first < 0x80 {
            out.push(first as char);
            assert(out@ =~= old(out)@ + seq![first as char]);
            return ;
        }
        let extra: usize = if first >= 0xf0 {
            3
        } else if first >= 0xe0 {
            2
        } else {
            1
        };
        let start: usize = self.pos - 1;
        let end: usize = if self.bytes.len() - self.pos <= extra {
            self.bytes.len()
        } else {
            self.pos + extra
        };
        out.push_str(lossy(vstd::slice::slice_subrange(self.bytes, start, end)).as_str());
        self.pos = end;
    }

    fn parse_pairs(&mut self, depth: usize, at_root: bool) -> (read: Result<
        Vec<(String, Value)>,
        ParseError,
    >)
        requires
            old(self).wf(),
            depth <= MAX_DEPTH + 1,
        ensures
            final(self).bytes == old(self).bytes,
            read is Ok ==> final(self).wf() && old(self).pos <= final(self).pos,
            match block(old(self).bytes@, old(self).pos as int, old(self).tokens as int, depth as int, at_root) {
                Ok((pairs, end, tokens)) => {
                    &&& read is Ok
                    &&& pairs_view(read->Ok_0@) == pairs
                    &&& final(self).pos == end
                    &&& final(self).tokens == tokens
                    &&& (at_root ==> end == old(self).bytes@.len())
                },
                Err(fault) => read is Err && read->Err_0.fault() == fault,
            },
        decreases MAX_DEPTH + 1 - depth,
    {
        if depth > MAX_DEPTH {
            return Err(self.err("nesting is deeper than the parser allows"));
        }
        let ghost b = self.bytes@;
        let ghost whole = block(b, self.pos as int, self.tokens as int, depth as int, at_root);
        let mut out: Vec<(String, Value)> = Vec::new();
        assert(with_pairs(pairs_view(out@), whole) == whole) by {
            if let Ok((pairs, end, tokens)) = whole {
                assert(pairs_view(out@) + pairs =~= pairs);
            }
        }
        loop
            invariant
                self.wf(),
                self.bytes@ == b,
                self.bytes == old(self).bytes,
                old(self).pos <= self.pos,
                depth <= MAX_DEPTH,
                whole == block(b, old(self).pos as int, old(self).tokens as int, depth as int, at_root),
                whole == with_pairs(
                    pairs_view(out@),
                    block(b, self.pos as int, self.tokens as int, depth as int, at_root),
                ),
            decreases b.len() - self.pos,
        {
            let ghost at = self.pos as int;
            let ghost used = self.tokens as int;
            let ghost before = out@;
            proof {
                lemma_after_trivia(b, at);
            }
            self.skip_trivia();
            let ghost here = self.pos as int;
            match self.peek() {
                None => {
                    if at_root {
                        assert(pairs_view(out@) + Seq::<PairView>::empty() =~= pairs_view(out@));
                        return Ok(out);
                    }
                    return Err(self.err("file ended inside a block"));
                },
                Some(125) => {
                    if at_root {
                        return Err(self.err("closing brace without a matching block"));
                    }
                    self.pos = self.pos + 1;
                    assert(pairs_view(out@) + Seq::<PairView>::empty() =~= pairs_view(out@));
                    return Ok(out);
                },
                Some(_) => {},
            }
            proof {
                lemma_token(b, here, used);
            }
            let key = match self.parse_token() {
                Ok(key) => key,
                Err(error) => return Err(error),
            };
            proof {
                lemma_after_trivia(b, self.pos as int);
            }
            self.skip_trivia();
            let ghost next = self.pos as int;
            let pair = match self.peek() {
                Some(123) => {
                    self.pos = self.pos + 1;
                    match self.parse_pairs(depth + 1, false) {
                        Ok(inner) => (key, Value::Obj(inner)),
                        Err(error) => return Err(error),
                    }
                },
                Some(_) => {
                    proof {
                        lemma_token(b, next, used + 1);
                    }
                    match self.parse_token() {
                        Ok(value) => (key, Value::Str(value)),
                        Err(error) => return Err(error),
                    }
                },
                None => return Err(self.err("key has no value")),
            };
            let ghost view = (pair.0@, pair.1.model());
            out.push(pair);
            proof {
                assert(pairs_view(out@) =~= pairs_view(before) + seq![view]);
                lemma_pairs_pairs(
                    pairs_view(before),
                    seq![view],
                    block(b, self.pos as int, self.tokens as int, depth as int, at_root),
                );
            }
        }
    }
}

/// A token was read as it should be.
spec fn reads(read: Result<String, ParseError>, pos: int, token: Token) -> bool {
    match token {
        Ok((text, end)) => read is Ok && read->Ok_0@ == text && pos == end,
        Err(fault) => read is Err && read->Err_0.fault() == fault,
    }
}

proof fn lemma_front_front(a: Seq<char>, b: Seq<char>, rest: Token)
    ensures
        with_front(a, with_front(b, rest)) == with_front(a + b, rest),
{
    if let Ok((text, end)) = rest {
        assert(a + (b + text) =~= (a + b) + text);
    }
}

proof fn lemma_pairs_pairs(a: Seq<PairView>, b: Seq<PairView>, rest: Block)
    ensures
        with_pairs(a, with_pairs(b, rest)) == with_pairs(a + b, rest),
{
    if let Ok((pairs, end, tokens)) = rest {
        assert(a + (b + pairs) =~= (a + b) + pairs);
    }
}

/// Reads a document. The value is the implicit root object, so a document with a single
/// `"libraryfolders" { ... }` block gives an object with one entry.
pub fn parse(input: &str) -> (read: Result<Value, ParseError>)
    ensures
        match document(vstd::utf8::encode_utf8(input@)) {
            Ok(pairs) => read is Ok && read->Ok_0.model() == ValueView::Obj(pairs),
            Err(fault) => read is Err && read->Err_0.fault() == fault,
        },
{
    let bytes = input.as_bytes();
    let length: usize = bytes.len();
    let mut parser = Parser { bytes, pos: 0, tokens: 0 };
    match parser.parse_pairs(0, true) {
        Ok(pairs) => Ok(Value::Obj(pairs)),
        Err(error) => Err(error),
    }
}

pub open spec fn too_large_text(path: Seq<u8>, size: u64) -> Seq<char> {
    utf8_text(path) + ": file is "@ + decimal_text(size as nat) + " bytes, larger than the "@
        + decimal_text(MAX_FILE_BYTES as nat) + " byte limit"@
}

/// May a file of this size be read? Larger ones are refused before their bytes are.
pub fn check_size(path: &FilePath, size: u64) -> (verdict: Result<(), String>)
    ensures
        verdict is Ok <==> size <= MAX_FILE_BYTES,
        verdict matches Err(text) ==> text@ == too_large_text(path@, size),
{
    if size > MAX_FILE_BYTES {
        let mut text = path.display();
        text.push_str(": file is ");
        text.push_str(decimal(size).as_str());
        text.push_str(" bytes, larger than the ");
        text.push_str(decimal(MAX_FILE_BYTES).as_str());
        text.push_str(" byte limit");
        Err(text)
    } else {
        Ok(())
    }
}

pub open spec fn fault_text(fault: Fault) -> Seq<char> {
    fault.0 + " at byte "@ + decimal_text(fault.1 as nat)
}

/// Parses the contents of a KeyValues file. What is no UTF-8 in it is read as replacement characters, and an
/// error names the file.
pub fn parse_file(path: &FilePath, bytes: &Vec<u8>) -> (read: Result<Value, String>)
    ensures
        match document(vstd::utf8::encode_utf8(utf8_text(bytes@))) {
            Ok(pairs) => read is Ok && read->Ok_0.model() == ValueView::Obj(pairs),
            Err(fault) => read is Err && read->Err_0@ == utf8_text(path@) + ": "@ + fault_text(fault),
        },
{
    let input = lossy(bytes);
    match parse(input.as_str()) {
        Ok(value) => Ok(value),
        Err(error) => {
            let mut text = path.display();
            text.push_str(": ");
            text.push_str(error.describe().as_str());
            Err(text)
        },
    }
}

proof fn lemma_block_bounds(b: Seq<u8>, at: int, tokens: int, depth: int, root: bool)
    requires
        0 <= at <= b.len(),
        0 <= tokens <= MAX_TOKENS,
        0 <= depth <= MAX_DEPTH + 1,
    ensures
        block(b, at, tokens, depth, root) matches Ok((pairs, end, used)) ==> {
            &&& used == tokens + pairs_texts(pairs)
            &&& used <= MAX_TOKENS
            &&& depth + pairs_depth(pairs) <= MAX_DEPTH
            &&& at <= end <= b.len()
        },
    decreases MAX_DEPTH + 1 - depth, b.len() - at,
{
    let here = after_trivia(b, at);
    lemma_after_trivia(b, at);
    if depth <= MAX_DEPTH && here < b.len() && b[here] != 125 {
        lemma_token(b, here, tokens);
        if let Ok((key, key_end)) = token(b, here, tokens) {
            let next = after_trivia(b, key_end);
            lemma_after_trivia(b, key_end);
            if next < b.len() {
                if b[next] == 123 {
                    lemma_block_bounds(b, next + 1, tokens + 1, depth + 1, false);
                    if let Ok((inner, end, used)) = block(b, next + 1, tokens + 1, depth + 1, false) {
                        lemma_block_bounds(b, end, used, depth, root);
                        if let Ok((rest, _, _)) = block(b, end, used, depth, root) {
                            let first = ValueView::Obj(inner);
                            assert(first.depth() == 1 + pairs_depth(inner));
                            assert(first.texts() == pairs_texts(inner));
                            let all = seq![(key, first)] + rest;
                            assert(all.subrange(1, all.len() as int) =~= rest);
                        }
                    }
                } else {
                    lemma_token(b, next, tokens + 1);
                    if let Ok((text, end)) = token(b, next, tokens + 1) {
                        lemma_block_bounds(b, end, tokens + 2, depth, root);
                        if let Ok((rest, _, _)) = block(b, end, tokens + 2, depth, root) {
                            let first = ValueView::Str(text);
                            assert(first.depth() == 0);
                            assert(first.texts() == 1);
                            let all = seq![(key, first)] + rest;
                            assert(all.subrange(1, all.len() as int) =~= rest);
                        }
                    }
                }
            }
        }
    }
}

/// A document that is accepted stays within the limits: no more keys and values than `MAX_TOKENS`,
/// and no more blocks inside one another than `MAX_DEPTH`.
pub proof fn law_accepted_documents_are_bounded(b: Seq<u8>, pairs: Seq<PairView>)
    requires
        document(b) == Ok::<Seq<PairView>, Fault>(pairs),
    ensures
        pairs_texts(pairs) <= MAX_TOKENS,
        pairs_depth(pairs) <= MAX_DEPTH,
{
    lemma_block_bounds(b, 0, 0, 0, true);
}

/// Two keys that differ in the case of ASCII letters alone find the same value.
pub proof fn law_keys_ignore_case(value: ValueView, left: Seq<char>, right: Seq<char>)
    requires
        lowered(left) == lowered(right),
    ensures
        value.under(left) == value.under(right),
{
    lemma_first_under_case(value.pairs(), left, right);
}

proof fn lemma_first_under_case(pairs: Seq<PairView>, left: Seq<char>, right: Seq<char>)
    requires
        lowered(left) == lowered(right),
    ensures
        first_under(pairs, left) == first_under(pairs, right),
    decreases pairs.len(),
{
    if pairs.len() > 0 {
        lemma_first_under_case(pairs.skip(1), left, right);
    }
}

fn is_bare_end(byte: u8) -> (is: bool)
    ensures
        is == ends_bare(byte),
{
    is_blank(byte) || byte == 123 || byte == 125 || byte == 34
}

fn is_blank(byte: u8) -> (is: bool)
    ensures
        is == blank(byte),
{
    byte == 9 || byte == 10 || byte == 12 || byte == 13 || byte == 32
}

fn is_letter(byte: u8) -> (is: bool)
    ensures
        is == letter(byte),
{
    (65 <= byte && byte <= 90) || (97 <= byte && byte <= 122)
}

/// A pair as it is written: what stands before its key, the key, what stands between, and the value.
pub struct Member {
    pub before: Seq<u8>,
    pub key: Seq<char>,
    pub between: Seq<u8>,
    pub value: Writing,
}

/// A value as it is written: a text in quotes, or pairs in braces with what stands behind the last of them.
pub enum Writing {
    Text(Seq<char>),
    Block(Seq<Member>, Seq<u8>),
}

/// Is it white space and whole `//` lines?
pub open spec fn is_gap(gap: Seq<u8>) -> bool
    decreases gap.len(),
{
    if gap.len() == 0 {
        true
    } else if blank(gap[0]) {
        is_gap(gap.skip(1))
    } else {
        &&& gap.len() > 1
        &&& gap[0] == 47
        &&& gap[1] == 47
        &&& 1 < line_end(gap, 1) < gap.len()
        &&& is_gap(gap.skip(line_end(gap, 1)))
    }
}

/// A character inside quotes, with a backslash before a quote or a backslash.
pub open spec fn written_char(c: char) -> Seq<u8> {
    if c == '"' {
        seq![92u8, 34u8]
    } else if c == '\\' {
        seq![92u8, 92u8]
    } else {
        encode_scalar(c as u32)
    }
}

pub open spec fn written_chars(text: Seq<char>) -> Seq<u8>
    decreases text.len(),
{
    if text.len() == 0 {
        Seq::empty()
    } else {
        written_char(text[0]) + written_chars(text.skip(1))
    }
}

/// A text in quotes.
pub open spec fn written_text(text: Seq<char>) -> Seq<u8> {
    seq![34u8] + (written_chars(text) + seq![34u8])
}

pub open spec fn written_value(value: Writing) -> Seq<u8>
    decreases value,
{
    match value {
        Writing::Text(text) => written_text(text),
        Writing::Block(members, end) => seq![123u8] + (written_members(members) + (end + seq![125u8])),
    }
}

pub open spec fn written_members(members: Seq<Member>) -> Seq<u8>
    decreases members,
{
    if members.len() == 0 {
        Seq::empty()
    } else {
        (members[0].before + (written_text(members[0].key) + (members[0].between + written_value(
            members[0].value,
        )))) + written_members(members.subrange(1, members.len() as int))
    }
}

/// The value that is written.
pub open spec fn meant_value(value: Writing) -> ValueView
    decreases value,
{
    match value {
        Writing::Text(text) => ValueView::Str(text),
        Writing::Block(members, _) => ValueView::Obj(meant_pairs(members)),
    }
}

/// The pairs that are written, in their order.
pub open spec fn meant_pairs(members: Seq<Member>) -> Seq<PairView>
    decreases members,
{
    if members.len() == 0 {
        Seq::empty()
    } else {
        seq![(members[0].key, meant_value(members[0].value))] + meant_pairs(
            members.subrange(1, members.len() as int),
        )
    }
}

/// Does nothing but white space and comments stand between the tokens?
pub open spec fn value_is_spaced(value: Writing) -> bool
    decreases value,
{
    match value {
        Writing::Text(_) => true,
        Writing::Block(members, end) => is_gap(end) && is_spaced(members),
    }
}

pub open spec fn is_spaced(members: Seq<Member>) -> bool
    decreases members,
{
    members.len() > 0 ==> {
        &&& is_gap(members[0].before)
        &&& is_gap(members[0].between)
        &&& value_is_spaced(members[0].value)
        &&& is_spaced(members.subrange(1, members.len() as int))
    }
}

/// Do these bytes stand here?
spec fn stands(b: Seq<u8>, at: int, piece: Seq<u8>) -> bool {
    &&& 0 <= at
    &&& at + piece.len() <= b.len()
    &&& b.subrange(at, at + piece.len()) == piece
}

proof fn lemma_stands_split(b: Seq<u8>, at: int, first: Seq<u8>, second: Seq<u8>)
    requires
        stands(b, at, first + second),
    ensures
        stands(b, at, first),
        stands(b, at + first.len(), second),
{
    let whole = first + second;
    let here = b.subrange(at, at + whole.len());
    assert(b.subrange(at, at + first.len()) =~= first) by {
        assert forall|i: int| 0 <= i < first.len() implies b[at + i] == first[i] by {
            assert(here[i] == whole[i]);
        }
    }
    assert(b.subrange(at + first.len(), at + first.len() + second.len()) =~= second) by {
        assert forall|i: int| 0 <= i < second.len() implies b[at + first.len() + i] == second[i] by {
            assert(here[first.len() + i] == whole[first.len() + i]);
        }
    }
}

proof fn lemma_stands_at(b: Seq<u8>, at: int, piece: Seq<u8>, i: int)
    requires
        stands(b, at, piece),
        0 <= i < piece.len(),
    ensures
        b[at + i] == piece[i],
{
    assert(b.subrange(at, at + piece.len())[i] == piece[i]);
}

proof fn lemma_same_line_end(b: Seq<u8>, at: int, gap: Seq<u8>, i: int)
    requires
        stands(b, at, gap),
        0 <= i,
        line_end(gap, i) < gap.len(),
    ensures
        line_end(b, at + i) == at + line_end(gap, i),
    decreases gap.len() - i,
{
    lemma_stands_at(b, at, gap, i);
    if gap[i] != 10 {
        lemma_same_line_end(b, at, gap, i + 1);
    }
}

/// A gap is passed over, up to the token, brace or end behind it.
proof fn lemma_gap_is_trivia(b: Seq<u8>, at: int, gap: Seq<u8>)
    requires
        stands(b, at, gap),
        is_gap(gap),
        at + gap.len() == b.len() || b[at + gap.len()] == 34 || b[at + gap.len()] == 123 || b[at + gap.len()] == 125,
    ensures
        after_trivia(b, at) == at + gap.len(),
    decreases gap.len(),
{
    if gap.len() > 0 {
        lemma_stands_at(b, at, gap, 0);
        if blank(gap[0]) {
            assert(seq![gap[0]] + gap.skip(1) =~= gap);
            lemma_stands_split(b, at, seq![gap[0]], gap.skip(1));
            lemma_gap_is_trivia(b, at + 1, gap.skip(1));
        } else {
            let n = line_end(gap, 1);
            lemma_stands_at(b, at, gap, 1);
            lemma_same_line_end(b, at, gap, 1);
            assert(gap.take(n) + gap.skip(n) =~= gap);
            lemma_stands_split(b, at, gap.take(n), gap.skip(n));
            assert(skipped_line(b, at));
            lemma_gap_is_trivia(b, at + n, gap.skip(n));
        }
    }
}

proof fn lemma_written_char(c: char)
    requires
        c != '"',
        c != '\\',
    ensures
        ({
            let e = encode_scalar(c as u32);
            &&& e.len() == width(e[0])
            &&& e[0] != 34
            &&& e[0] != 92
            &&& e[0] < 0x80 ==> e[0] as char == c
            &&& utf8_text(e) == seq![c]
        }),
{
    let u = c as u32;
    let e = encode_scalar(u);
    char_is_scalar(c);
    law_utf8_is_kept(Seq::empty(), seq![c]);
    assert(seq![c].drop_first() =~= Seq::empty());
    assert(encode_utf8(seq![c].drop_first()) =~= Seq::empty());
    assert(encode_utf8(seq![c]) =~= e);
    if has_width_1_encoding(u) {
        assert(u & 0x7f == u) by (bit_vector)
            requires
                u <= 0x7f,
        ;
        assert(e[0] == u as u8);
        assert(e[0] as u32 == u);
        assert(e[0] as char == c);
        assert(c as u32 != 34 && c as u32 != 92);
    } else if has_width_2_encoding(u) {
        let f = 0xC0u8 | ((u >> 6) & 0x1F) as u8;
        assert(0xC0 <= f && f < 0xE0) by (bit_vector)
            requires
                f == 0xC0u8 | ((u >> 6) & 0x1F) as u8,
        ;
        assert(e[0] == f);
    } else if has_width_3_encoding(u) {
        let f = 0xE0u8 | ((u >> 12) & 0x0F) as u8;
        assert(0xE0 <= f && f < 0xF0) by (bit_vector)
            requires
                f == 0xE0u8 | ((u >> 12) & 0x0F) as u8,
        ;
        assert(e[0] == f);
    } else {
        let f = 0xF0u8 | ((u >> 18) & 0x7) as u8;
        assert(0xF0 <= f) by (bit_vector)
            requires
                f == 0xF0u8 | ((u >> 18) & 0x7) as u8,
        ;
        assert(e[0] == f);
    }
}

/// A text in quotes is read as it was.
proof fn lemma_quoted_reads_back(b: Seq<u8>, at: int, text: Seq<char>)
    requires
        stands(b, at, written_chars(text) + seq![34u8]),
    ensures
        quoted_rest(b, at) == Ok::<(Seq<char>, int), Fault>((text, at + written_chars(text).len() + 1)),
    decreases text.len(),
{
    let whole = written_chars(text);
    lemma_stands_split(b, at, whole, seq![34u8]);
    lemma_stands_at(b, at + whole.len(), seq![34u8], 0);
    if text.len() == 0 {
        assert(text =~= Seq::empty());
    } else {
        let c = text[0];
        let first = written_char(c);
        let rest = written_chars(text.skip(1));
        assert(first + (rest + seq![34u8]) =~= whole + seq![34u8]);
        lemma_stands_split(b, at, first, rest + seq![34u8]);
        assert(seq![c] + text.skip(1) =~= text);
        if c == '"' || c == '\\' {
            lemma_stands_at(b, at, first, 0);
            lemma_stands_at(b, at, first, 1);
            lemma_quoted_reads_back(b, at + 2, text.skip(1));
        } else {
            lemma_written_char(c);
            lemma_stands_at(b, at, first, 0);
            lemma_quoted_reads_back(b, at + first.len(), text.skip(1));
            assert(char_end(b, at) == at + first.len());
            assert(b.subrange(at, char_end(b, at)) == first);
            assert(char_text(b, at) =~= seq![c]);
        }
    }
}

proof fn lemma_text_is_a_token(b: Seq<u8>, at: int, before: int, text: Seq<char>)
    requires
        stands(b, at, written_text(text)),
        before < MAX_TOKENS,
    ensures
        token(b, at, before) == Ok::<(Seq<char>, int), Fault>((text, at + written_text(text).len())),
        b[at] == 34,
        at < b.len(),
{
    lemma_stands_split(b, at, seq![34u8], written_chars(text) + seq![34u8]);
    lemma_stands_at(b, at, seq![34u8], 0);
    lemma_quoted_reads_back(b, at + 1, text);
}

/// What closes a block.
spec fn closing(root: bool) -> Seq<u8> {
    if root {
        Seq::empty()
    } else {
        seq![125u8]
    }
}

#[verifier::rlimit(40)]
proof fn lemma_members_read_back(
    b: Seq<u8>,
    at: int,
    members: Seq<Member>,
    end: Seq<u8>,
    tokens: int,
    depth: int,
    root: bool,
)
    requires
        stands(b, at, written_members(members) + (end + closing(root))),
        root ==> at + written_members(members).len() + end.len() == b.len(),
        is_gap(end),
        is_spaced(members),
        0 <= tokens,
        0 <= depth,
        tokens + pairs_texts(meant_pairs(members)) <= MAX_TOKENS,
        depth + pairs_depth(meant_pairs(members)) <= MAX_DEPTH,
    ensures
        block(b, at, tokens, depth, root) == Ok::<(Seq<PairView>, int, int), Fault>(
            (
                meant_pairs(members),
                at + written_members(members).len() + end.len() + closing(root).len(),
                tokens + pairs_texts(meant_pairs(members)),
            ),
        ),
    decreases members,
{
    let all = written_members(members);
    lemma_stands_split(b, at, all, end + closing(root));
    lemma_stands_split(b, at + all.len(), end, closing(root));
    if !root {
        lemma_stands_at(b, at + all.len() + end.len(), closing(root), 0);
    }
    if members.len() == 0 {
        lemma_gap_is_trivia(b, at, end);
    } else {
        let m = members[0];
        let rest = members.subrange(1, members.len() as int);
        let key = written_text(m.key);
        let value = written_value(m.value);
        let first = m.before + (key + (m.between + value));
        let pairs = meant_pairs(members);
        let others = meant_pairs(rest);
        let meant = meant_value(m.value);
        assert(pairs[0] == (m.key, meant));
        assert(pairs.subrange(1, pairs.len() as int) =~= others);
        assert(pairs_texts(pairs) == 1 + meant.texts() + pairs_texts(others));
        assert(pairs_depth(pairs) >= meant.depth() && pairs_depth(pairs) >= pairs_depth(others));
        lemma_stands_split(b, at, first, written_members(rest));
        lemma_stands_split(b, at, m.before, key + (m.between + value));
        let here = at + m.before.len();
        lemma_stands_split(b, here, key, m.between + value);
        let key_end = here + key.len();
        lemma_stands_split(b, key_end, m.between, value);
        let next = key_end + m.between.len();
        lemma_text_is_a_token(b, here, tokens, m.key);
        lemma_gap_is_trivia(b, at, m.before);
        let stop = next + value.len();
        assert(stop == at + first.len());
        assert(stands(b, stop, written_members(rest) + (end + closing(root)))) by {
            assert(b.subrange(stop, stop + (written_members(rest) + (end + closing(root))).len())
                =~= b.subrange(stop, stop + written_members(rest).len()) + (b.subrange(
                at + all.len(),
                at + all.len() + end.len(),
            ) + b.subrange(
                at + all.len() + end.len(),
                at + all.len() + end.len() + closing(root).len(),
            )));
        }
        match m.value {
            Writing::Text(text) => {
                assert(value == written_text(text));
                assert(meant == ValueView::Str(text));
                assert(meant.texts() == 1);
                lemma_text_is_a_token(b, next, tokens + 1, text);
                lemma_gap_is_trivia(b, key_end, m.between);
                lemma_members_read_back(b, stop, rest, end, tokens + 2, depth, root);
            },
            Writing::Block(inner, inner_end) => {
                let deeper = meant_pairs(inner);
                assert(value == seq![123u8] + (written_members(inner) + (inner_end + seq![125u8])));
                assert(meant == ValueView::Obj(deeper));
                assert(meant.texts() == pairs_texts(deeper));
                assert(meant.depth() == 1 + pairs_depth(deeper));
                lemma_stands_split(b, next, seq![123u8], written_members(inner) + (inner_end + seq![125u8]));
                lemma_stands_at(b, next, seq![123u8], 0);
                lemma_gap_is_trivia(b, key_end, m.between);
                assert(value_is_spaced(m.value));
                lemma_members_read_back(b, next + 1, inner, inner_end, tokens + 1, depth + 1, false);
                lemma_members_read_back(
                    b,
                    stop,
                    rest,
                    end,
                    tokens + 1 + pairs_texts(deeper),
                    depth,
                    root,
                );
            },
        }
        assert(seq![(m.key, meant)] + others =~= pairs);
    }
}

/// A document that was written is read as its pairs, in the order of the file, keys that stand twice among
/// them and whatever characters the texts hold: with keys and texts in quotes, a backslash before each quote and
/// backslash in them, blocks in braces, and any white space and `//` lines between, within the limits.
pub proof fn law_written_document_reads_back(members: Seq<Member>, end: Seq<u8>)
    requires
        is_spaced(members),
        is_gap(end),
        pairs_texts(meant_pairs(members)) <= MAX_TOKENS,
        pairs_depth(meant_pairs(members)) <= MAX_DEPTH,
    ensures
        document(written_members(members) + end) == Ok::<Seq<PairView>, Fault>(meant_pairs(members)),
{
    let b = written_members(members) + end;
    assert(written_members(members) + (end + closing(true)) =~= b);
    assert(b.subrange(0, b.len() as int) =~= b);
    lemma_members_read_back(b, 0, members, end, 0, 0, true);
}

} // verus!
