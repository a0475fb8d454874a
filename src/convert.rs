//! The legacy catalogue format: a tokenizer, a parser into a structured model,
//! and a writer of the canonical XML document.
use vstd::prelude::*;
use vstd::string::StringSliceAdditionalSpecFns;

verus! {

/// A half-open range `start..end` of bytes of the input document.
#[derive(Clone, Copy, PartialEq, Eq, Structural)]
pub struct Span {
    pub start: usize,
    pub end: usize,
}

/// One token of the legacy format: a bracket, or a value (a bare word or the
/// inside of a quoted string), given as its place in the input.
#[derive(Clone, Copy, PartialEq, Eq, Structural)]
pub enum Token {
    Open,
    Close,
    Atom { span: Span },
}

/// Where the tokenizer stands between two bytes.
#[derive(Clone, Copy, PartialEq, Eq, Structural)]
pub enum LexMode {
    Between,
    Word { start: usize },
    Quoted { start: usize },
}

pub open spec fn is_space(b: u8) -> bool {
    b == 32 || b == 9 || b == 10 || b == 13
}

pub open spec fn atom(start: int, end: int) -> Token {
    Token::Atom { span: Span { start: start as usize, end: end as usize } }
}

/// The tokenizer's reaction to the byte at position `i`.
pub open spec fn lex_step(m: LexMode, t: Seq<Token>, s: Seq<u8>, i: int) -> (LexMode, Seq<Token>) {
    let b = s[i];
    match m {
        LexMode::Between => {
            if is_space(b) {
                (LexMode::Between, t)
            } else if b == 40 {
                (LexMode::Between, t.push(Token::Open))
            } else if b == 41 {
                (LexMode::Between, t.push(Token::Close))
            } else if b == 34 {
                (LexMode::Quoted { start: (i + 1) as usize }, t)
            } else {
                (LexMode::Word { start: i as usize }, t)
            }
        },
        LexMode::Word { start } => {
            if is_space(b) {
                (LexMode::Between, t.push(atom(start as int, i)))
            } else if b == 40 {
                (LexMode::Between, t.push(atom(start as int, i)).push(Token::Open))
            } else if b == 41 {
                (LexMode::Between, t.push(atom(start as int, i)).push(Token::Close))
            } else if b == 34 {
                (LexMode::Quoted { start: (i + 1) as usize }, t.push(atom(start as int, i)))
            } else {
                (m, t)
            }
        },
        LexMode::Quoted { start } => {
            if b == 34 {
                (LexMode::Between, t.push(atom(start as int, i)))
            } else {
                (m, t)
            }
        },
    }
}

/// The tokenizer's state after the first `n` bytes of `s`.
pub open spec fn lex_state(s: Seq<u8>, n: nat) -> (LexMode, Seq<Token>)
    decreases n,
{
    if n == 0 {
        (LexMode::Between, Seq::empty())
    } else {
        let p = lex_state(s, (n - 1) as nat);
        lex_step(p.0, p.1, s, n - 1)
    }
}

/// The tokens of a whole document; `None` where a quoted string is left open.
pub open spec fn lex(s: Seq<u8>) -> Option<Seq<Token>> {
    let p = lex_state(s, s.len());
    match p.0 {
        LexMode::Between => Some(p.1),
        LexMode::Word { start } => Some(p.1.push(atom(start as int, s.len() as int))),
        LexMode::Quoted { .. } => None,
    }
}

pub open spec fn token_in(t: Token, n: int) -> bool {
    match t {
        Token::Atom { span } => span.start <= span.end <= n,
        _ => true,
    }
}

pub open spec fn tokens_in(t: Seq<Token>, n: int) -> bool {
    forall|k: int| 0 <= k < t.len() ==> #[trigger] token_in(t[k], n)
}

fn is_space_byte(b: u8) -> (r: bool)
    ensures
        r == is_space(b),
{
    b == 32 || b == 9 || b == 10 || b == 13
}

/// Splits a legacy document into tokens.
pub fn tokenize(s: &[u8]) -> (r: Option<Vec<Token>>)
    ensures
        r matches Some(t) ==> lex(s@) == Some(t@) && tokens_in(t@, s@.len() as int),
        r is None ==> lex(s@) is None,
{
    let mut mode = LexMode::Between;
    let mut toks: Vec<Token> = Vec::new();
    let mut i: usize = 0;
    while i < s.len()
        invariant
            0 <= i <= s@.len(),
            lex_state(s@, i as nat) == (mode, toks@),
            tokens_in(toks@, s@.len() as int),
            match mode {
                LexMode::Between => true,
                LexMode::Word { start } => start <= i,
                LexMode::Quoted { start } => start <= i,
            },
        decreases s@.len() - i,
    {
        let b = s[i];
        let ghost t0 = toks@;
        match mode {
            LexMode::Between => {
                if is_space_byte(b) {
                } else if b == 40 {
                    toks.push(Token::Open);
                } else if b == 41 {
                    toks.push(Token::Close);
                } else if b == 34 {
                    mode = LexMode::Quoted { start: i + 1 };
                } else {
                    mode = LexMode::Word { start: i };
                }
            },
            LexMode::Word { start } => {
                if is_space_byte(b) {
                    toks.push(Token::Atom { span: Span { start, end: i } });
                    mode = LexMode::Between;
                } else if b == 40 {
                    toks.push(Token::Atom { span: Span { start, end: i } });
                    toks.push(Token::Open);
                    mode = LexMode::Between;
                } else if b == 41 {
                    toks.push(Token::Atom { span: Span { start, end: i } });
                    toks.push(Token::Close);
                    mode = LexMode::Between;
                } else if b == 34 {
                    toks.push(Token::Atom { span: Span { start, end: i } });
                    mode = LexMode::Quoted { start: i + 1 };
                }
            },
            LexMode::Quoted { start } => {
                if b == 34 {
                    toks.push(Token::Atom { span: Span { start, end: i } });
                    mode = LexMode::Between;
                }
            },
        }
        i = i + 1;
        assert(tokens_in(toks@, s@.len() as int)) by {
            assert forall|k: int| 0 <= k < toks@.len() implies #[trigger] token_in(toks@[k], s@.len() as int) by {
                if k < t0.len() {
                    assert(toks@[k] == t0[k]);
                }
            }
        }
    }
    match mode {
        LexMode::Between => Some(toks),
        LexMode::Word { start } => {
            toks.push(Token::Atom { span: Span { start, end: s.len() } });
            assert(tokens_in(toks@, s@.len() as int)) by {
                assert forall|k: int| 0 <= k < toks@.len() implies #[trigger] token_in(toks@[k], s@.len() as int) by {
                    if k < toks@.len() - 1 {
                        assert(toks@[k] == toks@.drop_last()[k]);
                    }
                }
            }
            Some(toks)
        },
        LexMode::Quoted { .. } => None,
    }
}

/// The five header fields, as places in the input.
#[derive(Clone, Copy)]
pub struct HeaderSpans {
    pub name: Span,
    pub description: Span,
    pub category: Span,
    pub version: Span,
    pub author: Span,
}

/// The five attributes of a rom, as places in the input.
#[derive(Clone, Copy)]
pub struct RomSpans {
    pub name: Span,
    pub size: Span,
    pub crc: Span,
    pub md5: Span,
    pub sha1: Span,
}

/// A game: its two fields, and the range of the roms list that holds its roms.
#[derive(Clone, Copy)]
pub struct GameSpans {
    pub name: Span,
    pub description: Span,
    pub roms_start: usize,
    pub roms_end: usize,
}

/// Where the parser stands between two tokens.
///
/// `depth` counts the open blocks; `section` names the open top-level block
/// (0 none, 1 `clrmamepro`, 2 `game`, 3 any other); `in_rom` holds while a
/// `rom` block of a game is open; `pending` is a key that waits for its value.
#[derive(Clone, Copy)]
pub struct ParseState {
    pub depth: usize,
    pub section: u8,
    pub in_rom: bool,
    pub pending: Option<Span>,
    pub failed: bool,
    pub header: Option<HeaderSpans>,
    pub h_name: Option<Span>,
    pub h_description: Option<Span>,
    pub h_category: Option<Span>,
    pub h_version: Option<Span>,
    pub h_author: Option<Span>,
    pub g_name: Option<Span>,
    pub g_description: Option<Span>,
    pub g_roms_start: usize,
    pub r_name: Option<Span>,
    pub r_size: Option<Span>,
    pub r_crc: Option<Span>,
    pub r_md5: Option<Span>,
    pub r_sha1: Option<Span>,
}

pub open spec fn text_of(s: Seq<u8>, sp: Span) -> Seq<u8> {
    s.subrange(sp.start as int, sp.end as int)
}

pub open spec fn key_is(s: Seq<u8>, sp: Span, k: &str) -> bool {
    text_of(s, sp) == k.spec_bytes()
}

pub open spec fn initial_state() -> ParseState {
    ParseState {
        depth: 0,
        section: 0,
        in_rom: false,
        pending: None,
        failed: false,
        header: None,
        h_name: None,
        h_description: None,
        h_category: None,
        h_version: None,
        h_author: None,
        g_name: None,
        g_description: None,
        g_roms_start: 0,
        r_name: None,
        r_size: None,
        r_crc: None,
        r_md5: None,
        r_sha1: None,
    }
}

/// A `key value` pair: it fills a field of the header, of the open game or of
/// its open rom; elsewhere, or under another key, it is ignored.
pub open spec fn assign(st: ParseState, s: Seq<u8>, k: Span, v: Span) -> ParseState {
    let sv = Some(v);
    if st.depth == 1 && st.section == 1 {
        if key_is(s, k, "name") {
            ParseState { h_name: sv, ..st }
        } else if key_is(s, k, "description") {
            ParseState { h_description: sv, ..st }
        } else if key_is(s, k, "category") {
            ParseState { h_category: sv, ..st }
        } else if key_is(s, k, "version") {
            ParseState { h_version: sv, ..st }
        } else if key_is(s, k, "author") {
            ParseState { h_author: sv, ..st }
        } else {
            st
        }
    } else if st.depth == 1 && st.section == 2 {
        if key_is(s, k, "name") {
            ParseState { g_name: sv, ..st }
        } else if key_is(s, k, "description") {
            ParseState { g_description: sv, ..st }
        } else {
            st
        }
    } else if st.depth == 2 && st.in_rom {
        if key_is(s, k, "name") {
            ParseState { r_name: sv, ..st }
        } else if key_is(s, k, "size") {
            ParseState { r_size: sv, ..st }
        } else if key_is(s, k, "crc") {
            ParseState { r_crc: sv, ..st }
        } else if key_is(s, k, "md5") {
            ParseState { r_md5: sv, ..st }
        } else if key_is(s, k, "sha1") {
            ParseState { r_sha1: sv, ..st }
        } else {
            st
        }
    } else {
        st
    }
}

/// `key (` opens a block: at the top a `clrmamepro` header, a `game`, or one
/// that is skipped; inside a game a `rom`; anything deeper is skipped.
pub open spec fn open_block(st: ParseState, s: Seq<u8>, k: Span, nroms: nat) -> ParseState {
    if st.depth == 0 {
        if key_is(s, k, "clrmamepro") {
            ParseState {
                depth: 1,
                section: 1,
                h_name: None,
                h_description: None,
                h_category: None,
                h_version: None,
                h_author: None,
                ..st
            }
        } else if key_is(s, k, "game") {
            ParseState {
                depth: 1,
                section: 2,
                g_name: None,
                g_description: None,
                g_roms_start: nroms as usize,
                ..st
            }
        } else {
            ParseState { depth: 1, section: 3, ..st }
        }
    } else if st.depth == 1 && st.section == 2 && key_is(s, k, "rom") {
        ParseState {
            depth: 2,
            in_rom: true,
            r_name: None,
            r_size: None,
            r_crc: None,
            r_md5: None,
            r_sha1: None,
            ..st
        }
    } else {
        ParseState { depth: (st.depth + 1) as usize, ..st }
    }
}

pub open spec fn fail(st: ParseState) -> ParseState {
    ParseState { failed: true, ..st }
}

/// `)` closes the innermost block; a header, a game or a rom that lacks one of
/// its fields fails the parse.
pub open spec fn close_block(st: ParseState, games: Seq<GameSpans>, roms: Seq<RomSpans>) -> (
    ParseState,
    Seq<GameSpans>,
    Seq<RomSpans>,
) {
    if st.depth == 1 {
        let st2 = ParseState { depth: 0, section: 0, ..st };
        if st.section == 1 {
            match (st.h_name, st.h_description, st.h_category, st.h_version, st.h_author) {
                (Some(a), Some(b), Some(c), Some(d), Some(e)) => (
                    ParseState {
                        header: Some(
                            HeaderSpans { name: a, description: b, category: c, version: d, author: e },
                        ),
                        ..st2
                    },
                    games,
                    roms,
                ),
                _ => (fail(st2), games, roms),
            }
        } else if st.section == 2 {
            match (st.g_name, st.g_description) {
                (Some(a), Some(b)) => (
                    st2,
                    games.push(
                        GameSpans {
                            name: a,
                            description: b,
                            roms_start: st.g_roms_start,
                            roms_end: roms.len() as usize,
                        },
                    ),
                    roms,
                ),
                _ => (fail(st2), games, roms),
            }
        } else {
            (st2, games, roms)
        }
    } else if st.depth == 2 && st.in_rom {
        let st2 = ParseState { depth: 1, in_rom: false, ..st };
        match (st.r_name, st.r_size, st.r_crc, st.r_md5, st.r_sha1) {
            (Some(a), Some(b), Some(c), Some(d), Some(e)) => (
                st2,
                games,
                roms.push(RomSpans { name: a, size: b, crc: c, md5: d, sha1: e }),
            ),
            _ => (fail(st2), games, roms),
        }
    } else {
        (ParseState { depth: (st.depth - 1) as usize, ..st }, games, roms)
    }
}

/// The parser's reaction to one token. A failure is final.
pub open spec fn parse_step(
    st: ParseState,
    games: Seq<GameSpans>,
    roms: Seq<RomSpans>,
    s: Seq<u8>,
    tok: Token,
) -> (ParseState, Seq<GameSpans>, Seq<RomSpans>) {
    if st.failed {
        (st, games, roms)
    } else {
        match st.pending {
            None => match tok {
                Token::Atom { span } => (ParseState { pending: Some(span), ..st }, games, roms),
                Token::Open => (fail(st), games, roms),
                Token::Close => if st.depth == 0 {
                    (fail(st), games, roms)
                } else {
                    close_block(st, games, roms)
                },
            },
            Some(k) => {
                let st1 = ParseState { pending: None, ..st };
                match tok {
                    Token::Atom { span } => (assign(st1, s, k, span), games, roms),
                    Token::Open => (open_block(st1, s, k, roms.len()), games, roms),
                    Token::Close => (fail(st1), games, roms),
                }
            },
        }
    }
}

/// The parser's state after the first `n` tokens.
pub open spec fn parse_run(s: Seq<u8>, t: Seq<Token>, n: nat) -> (
    ParseState,
    Seq<GameSpans>,
    Seq<RomSpans>,
)
    decreases n,
{
    if n == 0 {
        (initial_state(), Seq::empty(), Seq::empty())
    } else {
        let p = parse_run(s, t, (n - 1) as nat);
        parse_step(p.0, p.1, p.2, s, t[n - 1])
    }
}

/// The parse of a token sequence: every block closed, no key left without a
/// value, and a complete header.
pub open spec fn parse_tokens(s: Seq<u8>, t: Seq<Token>) -> Option<
    (HeaderSpans, Seq<GameSpans>, Seq<RomSpans>),
> {
    let p = parse_run(s, t, t.len());
    if !p.0.failed && p.0.depth == 0 && p.0.pending is None && p.0.header is Some {
        Some((p.0.header->0, p.1, p.2))
    } else {
        None
    }
}

pub open spec fn span_in(sp: Span, n: int) -> bool {
    sp.start <= sp.end <= n
}

pub open spec fn opt_span_in(sp: Option<Span>, n: int) -> bool {
    match sp {
        Some(x) => span_in(x, n),
        None => true,
    }
}

pub open spec fn header_in(h: HeaderSpans, n: int) -> bool {
    span_in(h.name, n) && span_in(h.description, n) && span_in(h.category, n) && span_in(
        h.version,
        n,
    ) && span_in(h.author, n)
}

pub open spec fn rom_in(r: RomSpans, n: int) -> bool {
    span_in(r.name, n) && span_in(r.size, n) && span_in(r.crc, n) && span_in(r.md5, n)
        && span_in(r.sha1, n)
}

pub open spec fn game_in(g: GameSpans, n: int, nroms: int) -> bool {
    span_in(g.name, n) && span_in(g.description, n) && g.roms_start <= g.roms_end <= nroms
}

/// Every place that the parser holds lies in an input of `n` bytes, and each
/// game's roms lie in the roms list.
pub open spec fn state_in(st: ParseState, games: Seq<GameSpans>, roms: Seq<RomSpans>, n: int) -> bool {
    &&& opt_span_in(st.pending, n)
    &&& match st.header {
        Some(h) => header_in(h, n),
        None => true,
    }
    &&& opt_span_in(st.h_name, n) && opt_span_in(st.h_description, n) && opt_span_in(
        st.h_category,
        n,
    ) && opt_span_in(st.h_version, n) && opt_span_in(st.h_author, n)
    &&& opt_span_in(st.g_name, n) && opt_span_in(st.g_description, n)
    &&& st.g_roms_start <= roms.len()
    &&& opt_span_in(st.r_name, n) && opt_span_in(st.r_size, n) && opt_span_in(st.r_crc, n)
        && opt_span_in(st.r_md5, n) && opt_span_in(st.r_sha1, n)
    &&& forall|k: int| 0 <= k < games.len() ==> #[trigger] game_in(games[k], n, roms.len() as int)
    &&& forall|k: int| 0 <= k < roms.len() ==> #[trigger] rom_in(roms[k], n)
}

/// Whether the bytes at `sp` spell `k`.
fn span_is(s: &[u8], sp: Span, k: &str) -> (r: bool)
    requires
        span_in(sp, s@.len() as int),
    ensures
        r == key_is(s@, sp, k),
{
    let kb = k.as_bytes();
    if sp.end - sp.start != kb.len() {
        return false;
    }
    let mut i: usize = 0;
    while i < kb.len()
        invariant
            span_in(sp, s@.len() as int),
            sp.end - sp.start == kb@.len(),
            kb@ == k.spec_bytes(),
            0 <= i <= kb@.len(),
            forall|j: int| 0 <= j < i ==> s@[sp.start + j] == kb@[j],
        decreases kb@.len() - i,
    {
        if s[sp.start + i] != kb[i] {
            assert(text_of(s@, sp)[i as int] != k.spec_bytes()[i as int]);
            return false;
        }
        i = i + 1;
    }
    assert(text_of(s@, sp) =~= k.spec_bytes());
    true
}

fn assign_exec(st: ParseState, s: &[u8], k: Span, v: Span) -> (r: ParseState)
    requires
        span_in(k, s@.len() as int),
    ensures
        r == assign(st, s@, k, v),
{
    let sv = Some(v);
    if st.depth == 1 && st.section == 1 {
        if span_is(s, k, "name") {
            ParseState { h_name: sv, ..st }
        } else if span_is(s, k, "description") {
            ParseState { h_description: sv, ..st }
        } else if span_is(s, k, "category") {
            ParseState { h_category: sv, ..st }
        } else if span_is(s, k, "version") {
            ParseState { h_version: sv, ..st }
        } else if span_is(s, k, "author") {
            ParseState { h_author: sv, ..st }
        } else {
            st
        }
    } else if st.depth == 1 && st.section == 2 {
        if span_is(s, k, "name") {
            ParseState { g_name: sv, ..st }
        } else if span_is(s, k, "description") {
            ParseState { g_description: sv, ..st }
        } else {
            st
        }
    } else if st.depth == 2 && st.in_rom {
        if span_is(s, k, "name") {
            ParseState { r_name: sv, ..st }
        } else if span_is(s, k, "size") {
            ParseState { r_size: sv, ..st }
        } else if span_is(s, k, "crc") {
            ParseState { r_crc: sv, ..st }
        } else if span_is(s, k, "md5") {
            ParseState { r_md5: sv, ..st }
        } else if span_is(s, k, "sha1") {
            ParseState { r_sha1: sv, ..st }
        } else {
            st
        }
    } else {
        st
    }
}

fn open_block_exec(st: ParseState, s: &[u8], k: Span, nroms: usize) -> (r: ParseState)
    requires
        span_in(k, s@.len() as int),
        st.depth < usize::MAX,
    ensures
        r == open_block(st, s@, k, nroms as nat),
{
    if st.depth == 0 {
        if span_is(s, k, "clrmamepro") {
            ParseState {
                depth: 1,
                section: 1,
                h_name: None,
                h_description: None,
                h_category: None,
                h_version: None,
                h_author: None,
                ..st
            }
        } else if span_is(s, k, "game") {
            ParseState {
                depth: 1,
                section: 2,
                g_name: None,
                g_description: None,
                g_roms_start: nroms,
                ..st
            }
        } else {
            ParseState { depth: 1, section: 3, ..st }
        }
    } else if st.depth == 1 && st.section == 2 && span_is(s, k, "rom") {
        ParseState {
            depth: 2,
            in_rom: true,
            r_name: None,
            r_size: None,
            r_crc: None,
            r_md5: None,
            r_sha1: None,
            ..st
        }
    } else {
        ParseState { depth: st.depth + 1, ..st }
    }
}

fn close_block_exec(st: ParseState, games: &mut Vec<GameSpans>, roms: &mut Vec<RomSpans>) -> (r:
    ParseState)
    requires
        st.depth > 0,
    ensures
        (r, final(games)@, final(roms)@) == close_block(st, old(games)@, old(roms)@),
{
    if st.depth == 1 {
        let st2 = ParseState { depth: 0, section: 0, ..st };
        if st.section == 1 {
            match (st.h_name, st.h_description, st.h_category, st.h_version, st.h_author) {
                (Some(a), Some(b), Some(c), Some(d), Some(e)) => ParseState {
                    header: Some(
                        HeaderSpans { name: a, description: b, category: c, version: d, author: e },
                    ),
                    ..st2
                },
                _ => ParseState { failed: true, ..st2 },
            }
        } else if st.section == 2 {
            match (st.g_name, st.g_description) {
                (Some(a), Some(b)) => {
                    let n = roms.len();
                    games.push(
                        GameSpans {
                            name: a,
                            description: b,
                            roms_start: st.g_roms_start,
                            roms_end: n,
                        },
                    );
                    st2
                },
                _ => ParseState { failed: true, ..st2 },
            }
        } else {
            st2
        }
    } else if st.depth == 2 && st.in_rom {
        let st2 = ParseState { depth: 1, in_rom: false, ..st };
        match (st.r_name, st.r_size, st.r_crc, st.r_md5, st.r_sha1) {
            (Some(a), Some(b), Some(c), Some(d), Some(e)) => {
                roms.push(RomSpans { name: a, size: b, crc: c, md5: d, sha1: e });
                st2
            },
            _ => ParseState { failed: true, ..st2 },
        }
    } else {
        ParseState { depth: st.depth - 1, ..st }
    }
}

fn parse_step_exec(
    st: ParseState,
    games: &mut Vec<GameSpans>,
    roms: &mut Vec<RomSpans>,
    s: &[u8],
    tok: Token,
) -> (r: ParseState)
    requires
        state_in(st, old(games)@, old(roms)@, s@.len() as int),
        token_in(tok, s@.len() as int),
        st.depth < usize::MAX,
    ensures
        (r, final(games)@, final(roms)@) == parse_step(st, old(games)@, old(roms)@, s@, tok),
        state_in(r, final(games)@, final(roms)@, s@.len() as int),
        r.depth <= st.depth + 1,
{
    let ghost n = s@.len() as int;
    let nr0 = roms.len();
    if st.failed {
        return st;
    }
    let r = match st.pending {
        None => match tok {
            Token::Atom { span } => ParseState { pending: Some(span), ..st },
            Token::Open => ParseState { failed: true, ..st },
            Token::Close => if st.depth == 0 {
                ParseState { failed: true, ..st }
            } else {
                close_block_exec(st, games, roms)
            },
        },
        Some(k) => {
            let st1 = ParseState { pending: None, ..st };
            match tok {
                Token::Atom { span } => assign_exec(st1, s, k, span),
                Token::Open => {
                    let nr = roms.len();
                    open_block_exec(st1, s, k, nr)
                },
                Token::Close => ParseState { failed: true, ..st1 },
            }
        },
    };
    assert forall|k: int| 0 <= k < games@.len() implies #[trigger] game_in(
        games@[k],
        n,
        roms@.len() as int,
    ) by {
        if k < old(games)@.len() {
            assert(game_in(old(games)@[k], n, old(roms)@.len() as int));
            assert(games@[k] == old(games)@[k]);
        } else {
            assert(st.pending is None && st.depth == 1 && st.section == 2);
            assert(games@[k].roms_start == st.g_roms_start);
            assert(nr0 == old(roms)@.len());
            assert(span_in(games@[k].name, n));
            assert(span_in(games@[k].description, n));
        }
    }
    assert forall|k: int| 0 <= k < roms@.len() implies #[trigger] rom_in(roms@[k], n) by {
        if k < old(roms)@.len() {
            assert(rom_in(old(roms)@[k], n));
        }
    }
    r
}

/// Parses a token sequence of `s` into the places of the header, the games and
/// the roms.
pub fn parse_token_seq(s: &[u8], t: &Vec<Token>) -> (r: Option<(HeaderSpans, Vec<GameSpans>, Vec<RomSpans>)>)
    requires
        tokens_in(t@, s@.len() as int),
    ensures
        r matches Some(x) ==> parse_tokens(s@, t@) == Some((x.0, x.1@, x.2@)) && header_in(
            x.0,
            s@.len() as int,
        ) && (forall|k: int|
            0 <= k < x.1@.len() ==> #[trigger] game_in(x.1@[k], s@.len() as int, x.2@.len() as int))
            && (forall|k: int| 0 <= k < x.2@.len() ==> #[trigger] rom_in(x.2@[k], s@.len() as int)),
        r is None ==> parse_tokens(s@, t@) is None,
{
    let mut st = ParseState {
        depth: 0,
        section: 0,
        in_rom: false,
        pending: None,
        failed: false,
        header: None,
        h_name: None,
        h_description: None,
        h_category: None,
        h_version: None,
        h_author: None,
        g_name: None,
        g_description: None,
        g_roms_start: 0,
        r_name: None,
        r_size: None,
        r_crc: None,
        r_md5: None,
        r_sha1: None,
    };
    let mut games: Vec<GameSpans> = Vec::new();
    let mut roms: Vec<RomSpans> = Vec::new();
    let mut i: usize = 0;
    while i < t.len()
        invariant
            0 <= i <= t@.len(),
            tokens_in(t@, s@.len() as int),
            parse_run(s@, t@, i as nat) == (st, games@, roms@),
            state_in(st, games@, roms@, s@.len() as int),
            st.depth <= i,
        decreases t@.len() - i,
    {
        assert(token_in(t@[i as int], s@.len() as int));
        st = parse_step_exec(st, &mut games, &mut roms, s, t[i]);
        i = i + 1;
    }
    if !st.failed && st.depth == 0 && st.pending.is_none() {
        match st.header {
            Some(h) => Some((h, games, roms)),
            None => None,
        }
    } else {
        None
    }
}

/// A rom of a catalogue: five text attributes, kept as the bytes they were
/// written with.
pub struct Rom {
    pub name: Vec<u8>,
    pub size: Vec<u8>,
    pub crc: Vec<u8>,
    pub md5: Vec<u8>,
    pub sha1: Vec<u8>,
}

pub ghost struct RomView {
    pub name: Seq<u8>,
    pub size: Seq<u8>,
    pub crc: Seq<u8>,
    pub md5: Seq<u8>,
    pub sha1: Seq<u8>,
}

impl View for Rom {
    type V = RomView;

    open spec fn view(&self) -> RomView {
        RomView {
            name: self.name@,
            size: self.size@,
            crc: self.crc@,
            md5: self.md5@,
            sha1: self.sha1@,
        }
    }
}

/// A game of a catalogue, with its roms in the order of the input.
pub struct Game {
    pub name: Vec<u8>,
    pub description: Vec<u8>,
    pub roms: Vec<Rom>,
}

pub ghost struct GameView {
    pub name: Seq<u8>,
    pub description: Seq<u8>,
    pub roms: Seq<RomView>,
}

impl View for Game {
    type V = GameView;

    open spec fn view(&self) -> GameView {
        GameView {
            name: self.name@,
            description: self.description@,
            roms: self.roms@.map_values(|r: Rom| r@),
        }
    }
}

/// The header of a catalogue.
pub struct Header {
    pub name: Vec<u8>,
    pub description: Vec<u8>,
    pub category: Vec<u8>,
    pub version: Vec<u8>,
    pub author: Vec<u8>,
}

pub ghost struct HeaderView {
    pub name: Seq<u8>,
    pub description: Seq<u8>,
    pub category: Seq<u8>,
    pub version: Seq<u8>,
    pub author: Seq<u8>,
}

impl View for Header {
    type V = HeaderView;

    open spec fn view(&self) -> HeaderView {
        HeaderView {
            name: self.name@,
            description: self.description@,
            category: self.category@,
            version: self.version@,
            author: self.author@,
        }
    }
}

/// A catalogue: a header and its games, in the order of the input.
pub struct CatalogDocument {
    pub header: Header,
    pub games: Vec<Game>,
}

pub ghost struct CatalogView {
    pub header: HeaderView,
    pub games: Seq<GameView>,
}

impl View for CatalogDocument {
    type V = CatalogView;

    open spec fn view(&self) -> CatalogView {
        CatalogView { header: self.header@, games: self.games@.map_values(|g: Game| g@) }
    }
}

pub open spec fn rom_view_of(s: Seq<u8>, r: RomSpans) -> RomView {
    RomView {
        name: text_of(s, r.name),
        size: text_of(s, r.size),
        crc: text_of(s, r.crc),
        md5: text_of(s, r.md5),
        sha1: text_of(s, r.sha1),
    }
}

pub open spec fn game_view_of(s: Seq<u8>, g: GameSpans, roms: Seq<RomSpans>) -> GameView {
    GameView {
        name: text_of(s, g.name),
        description: text_of(s, g.description),
        roms: roms.subrange(g.roms_start as int, g.roms_end as int).map_values(
            |r: RomSpans| rom_view_of(s, r),
        ),
    }
}

pub open spec fn header_view_of(s: Seq<u8>, h: HeaderSpans) -> HeaderView {
    HeaderView {
        name: text_of(s, h.name),
        description: text_of(s, h.description),
        category: text_of(s, h.category),
        version: text_of(s, h.version),
        author: text_of(s, h.author),
    }
}

/// The legacy catalogue that `s` holds, if it is well formed.
pub open spec fn catalog_of(s: Seq<u8>) -> Option<CatalogView> {
    match lex(s) {
        Some(t) => match parse_tokens(s, t) {
            Some(p) => Some(
                CatalogView {
                    header: header_view_of(s, p.0),
                    games: p.1.map_values(|g: GameSpans| game_view_of(s, g, p.2)),
                },
            ),
            None => None,
        },
        None => None,
    }
}

fn copy_span(s: &[u8], sp: Span) -> (r: Vec<u8>)
    requires
        span_in(sp, s@.len() as int),
    ensures
        r@ == text_of(s@, sp),
{
    let part = vstd::slice::slice_subrange(s, sp.start, sp.end);
    vstd::slice::slice_to_vec(part)
}

fn rom_of(s: &[u8], r: RomSpans) -> (out: Rom)
    requires
        rom_in(r, s@.len() as int),
    ensures
        out@ == rom_view_of(s@, r),
{
    Rom {
        name: copy_span(s, r.name),
        size: copy_span(s, r.size),
        crc: copy_span(s, r.crc),
        md5: copy_span(s, r.md5),
        sha1: copy_span(s, r.sha1),
    }
}

fn game_of(s: &[u8], g: GameSpans, roms: &Vec<RomSpans>) -> (out: Game)
    requires
        game_in(g, s@.len() as int, roms@.len() as int),
        forall|k: int| 0 <= k < roms@.len() ==> #[trigger] rom_in(roms@[k], s@.len() as int),
    ensures
        out@ == game_view_of(s@, g, roms@),
{
    let mut out: Vec<Rom> = Vec::new();
    let mut j: usize = g.roms_start;
    while j < g.roms_end
        invariant
            game_in(g, s@.len() as int, roms@.len() as int),
            forall|k: int| 0 <= k < roms@.len() ==> #[trigger] rom_in(roms@[k], s@.len() as int),
            g.roms_start <= j <= g.roms_end,
            out@.len() == j - g.roms_start,
            forall|k: int|
                0 <= k < out@.len() ==> #[trigger] out@[k]@ == rom_view_of(
                    s@,
                    roms@[g.roms_start + k],
                ),
        decreases g.roms_end - j,
    {
        assert(rom_in(roms@[j as int], s@.len() as int));
        out.push(rom_of(s, roms[j]));
        j = j + 1;
    }
    let ghost want = roms@.subrange(g.roms_start as int, g.roms_end as int).map_values(
        |r: RomSpans| rom_view_of(s@, r),
    );
    assert(out@.map_values(|r: Rom| r@) =~= want);
    Game {
        name: copy_span(s, g.name),
        description: copy_span(s, g.description),
        roms: out,
    }
}

/// Parses a legacy catalogue into its model; `None` where it is malformed: an
/// open quoted string, a bracket out of place, a key without a value, a
/// missing header, or a header, game or rom that lacks a field.
pub fn parse_catalog(s: &[u8]) -> (r: Option<CatalogDocument>)
    ensures
        r matches Some(d) ==> catalog_of(s@) == Some(d@),
        r is None ==> catalog_of(s@) is None,
{
    let toks = match tokenize(s) {
        Some(t) => t,
        None => return None,
    };
    let (h, games, roms) = match parse_token_seq(s, &toks) {
        Some(p) => p,
        None => return None,
    };
    let mut out: Vec<Game> = Vec::new();
    let mut i: usize = 0;
    while i < games.len()
        invariant
            0 <= i <= games@.len(),
            forall|k: int|
                0 <= k < games@.len() ==> #[trigger] game_in(
                    games@[k],
                    s@.len() as int,
                    roms@.len() as int,
                ),
            forall|k: int| 0 <= k < roms@.len() ==> #[trigger] rom_in(roms@[k], s@.len() as int),
            out@.len() == i,
            forall|k: int| 0 <= k < i ==> #[trigger] out@[k]@ == game_view_of(s@, games@[k], roms@),
        decreases games@.len() - i,
    {
        assert(game_in(games@[i as int], s@.len() as int, roms@.len() as int));
        out.push(game_of(s, games[i], &roms));
        i = i + 1;
    }
    let header = Header {
        name: copy_span(s, h.name),
        description: copy_span(s, h.description),
        category: copy_span(s, h.category),
        version: copy_span(s, h.version),
        author: copy_span(s, h.author),
    };
    let d = CatalogDocument { header, games: out };
    assert(d@.games =~= games@.map_values(|g: GameSpans| game_view_of(s@, g, roms@)));
    Some(d)
}

/// The XML escape of one byte: the five markup characters become entities.
pub open spec fn escape_byte(b: u8) -> Seq<u8> {
    if b == 60 {
        "&lt;".spec_bytes()
    } else if b == 62 {
        "&gt;".spec_bytes()
    } else if b == 39 {
        "&apos;".spec_bytes()
    } else if b == 38 {
        "&amp;".spec_bytes()
    } else if b == 34 {
        "&quot;".spec_bytes()
    } else {
        seq![b]
    }
}

/// The XML escape of a text, byte by byte.
pub open spec fn escape(t: Seq<u8>) -> Seq<u8>
    decreases t.len(),
{
    if t.len() == 0 {
        Seq::empty()
    } else {
        escape(t.drop_last()) + escape_byte(t.last())
    }
}

/// The XML declaration and the document type of the canonical format.
pub open spec fn prologue() -> Seq<u8> {
    "<?xml version=\"1.0\"?>\n<!DOCTYPE datafile PUBLIC \"-//Logiqx//DTD ROM Management Datafile//EN\" \"http://www.logiqx.com/Dats/datafile.dtd\">".spec_bytes()
}

/// `<tag>text</tag>` on a line of its own, after `indent`.
pub open spec fn text_element(indent: &str, tag: &str, text: Seq<u8>) -> Seq<u8> {
    indent.spec_bytes() + "<".spec_bytes() + tag.spec_bytes() + ">".spec_bytes() + escape(text)
        + "</".spec_bytes() + tag.spec_bytes() + ">".spec_bytes()
}

/// ` key="value"`.
pub open spec fn attribute(key: &str, value: Seq<u8>) -> Seq<u8> {
    " ".spec_bytes() + key.spec_bytes() + "=\"".spec_bytes() + escape(value) + "\"".spec_bytes()
}

pub open spec fn render_header(h: HeaderView, homepage: Seq<u8>) -> Seq<u8> {
    "\n\t<header>".spec_bytes() + text_element("\n\t\t", "name", h.name) + text_element(
        "\n\t\t",
        "description",
        h.description,
    ) + text_element("\n\t\t", "version", h.version) + text_element("\n\t\t", "author", h.author)
        + text_element("\n\t\t", "homepage", homepage) + "\n\t</header>".spec_bytes()
}

pub open spec fn render_rom(r: RomView) -> Seq<u8> {
    "\n\t\t<rom".spec_bytes() + attribute("name", r.name) + attribute("size", r.size) + attribute(
        "crc",
        r.crc,
    ) + attribute("md5", r.md5) + attribute("sha1", r.sha1) + "/>".spec_bytes()
}

pub open spec fn render_roms(rs: Seq<RomView>) -> Seq<u8>
    decreases rs.len(),
{
    if rs.len() == 0 {
        Seq::empty()
    } else {
        render_roms(rs.drop_last()) + render_rom(rs.last())
    }
}

/// A game: its name as an attribute, the catalogue's category, its
/// description, then its roms.
pub open spec fn render_game(g: GameView, category: Seq<u8>) -> Seq<u8> {
    "\n\t<game".spec_bytes() + attribute("name", g.name) + ">".spec_bytes() + text_element(
        "\n\t\t",
        "category",
        category,
    ) + text_element("\n\t\t", "description", g.description) + render_roms(g.roms)
        + "\n\t</game>".spec_bytes()
}

pub open spec fn render_games(gs: Seq<GameView>, category: Seq<u8>) -> Seq<u8>
    decreases gs.len(),
{
    if gs.len() == 0 {
        Seq::empty()
    } else {
        render_games(gs.drop_last(), category) + render_game(gs.last(), category)
    }
}

/// The canonical XML document of a catalogue, tab-indented, with `homepage`
/// added to its header.
pub open spec fn render(d: CatalogView, homepage: Seq<u8>) -> Seq<u8> {
    prologue() + "\n<datafile>".spec_bytes() + render_header(d.header, homepage) + render_games(
        d.games,
        d.header.category,
    ) + "\n</datafile>".spec_bytes()
}

fn push_bytes(out: &mut Vec<u8>, b: &[u8])
    ensures
        final(out)@ == old(out)@ + b@,
{
    let mut i: usize = 0;
    while i < b.len()
        invariant
            0 <= i <= b@.len(),
            out@ == old(out)@ + b@.take(i as int),
        decreases b@.len() - i,
    {
        out.push(b[i]);
        i = i + 1;
        assert(out@ =~= old(out)@ + b@.take(i as int));
    }
    assert(b@.take(i as int) =~= b@);
}

fn push_str(out: &mut Vec<u8>, k: &str)
    ensures
        final(out)@ == old(out)@ + k.spec_bytes(),
{
    push_bytes(out, k.as_bytes());
}

fn push_escaped(out: &mut Vec<u8>, t: &[u8])
    ensures
        final(out)@ == old(out)@ + escape(t@),
{
    let mut i: usize = 0;
    while i < t.len()
        invariant
            0 <= i <= t@.len(),
            out@ == old(out)@ + escape(t@.take(i as int)),
        decreases t@.len() - i,
    {
        let b = t[i];
        let ghost before = out@;
        if b == 60 {
            push_str(out, "&lt;");
        } else if b == 62 {
            push_str(out, "&gt;");
        } else if b == 39 {
            push_str(out, "&apos;");
        } else if b == 38 {
            push_str(out, "&amp;");
        } else if b == 34 {
            push_str(out, "&quot;");
        } else {
            out.push(b);
            assert(out@ =~= before + seq![b]);
        }
        assert(t@.take(i + 1).drop_last() =~= t@.take(i as int));
        i = i + 1;
        assert(out@ =~= old(out)@ + escape(t@.take(i as int)));
    }
    assert(t@.take(i as int) =~= t@);
}

fn push_text_element(out: &mut Vec<u8>, indent: &str, tag: &str, text: &[u8])
    ensures
        final(out)@ == old(out)@ + text_element(indent, tag, text@),
{
    push_str(out, indent);
    push_str(out, "<");
    push_str(out, tag);
    push_str(out, ">");
    push_escaped(out, text);
    push_str(out, "</");
    push_str(out, tag);
    push_str(out, ">");
    assert(out@ =~= old(out)@ + text_element(indent, tag, text@));
}

fn push_attribute(out: &mut Vec<u8>, key: &str, value: &[u8])
    ensures
        final(out)@ == old(out)@ + attribute(key, value@),
{
    push_str(out, " ");
    push_str(out, key);
    push_str(out, "=\"");
    push_escaped(out, value);
    push_str(out, "\"");
    assert(out@ =~= old(out)@ + attribute(key, value@));
}

fn push_header(out: &mut Vec<u8>, h: &Header, homepage: &[u8])
    ensures
        final(out)@ == old(out)@ + render_header(h@, homepage@),
{
    push_str(out, "\n\t<header>");
    push_text_element(out, "\n\t\t", "name", h.name.as_slice());
    push_text_element(out, "\n\t\t", "description", h.description.as_slice());
    push_text_element(out, "\n\t\t", "version", h.version.as_slice());
    push_text_element(out, "\n\t\t", "author", h.author.as_slice());
    push_text_element(out, "\n\t\t", "homepage", homepage);
    push_str(out, "\n\t</header>");
    assert(out@ =~= old(out)@ + render_header(h@, homepage@));
}

fn push_rom(out: &mut Vec<u8>, r: &Rom)
    ensures
        final(out)@ == old(out)@ + render_rom(r@),
{
    push_str(out, "\n\t\t<rom");
    push_attribute(out, "name", r.name.as_slice());
    push_attribute(out, "size", r.size.as_slice());
    push_attribute(out, "crc", r.crc.as_slice());
    push_attribute(out, "md5", r.md5.as_slice());
    push_attribute(out, "sha1", r.sha1.as_slice());
    push_str(out, "/>");
    assert(out@ =~= old(out)@ + render_rom(r@));
}

fn push_roms(out: &mut Vec<u8>, roms: &Vec<Rom>)
    ensures
        final(out)@ == old(out)@ + render_roms(roms@.map_values(|r: Rom| r@)),
{
    let ghost views = roms@.map_values(|r: Rom| r@);
    let mut i: usize = 0;
    while i < roms.len()
        invariant
            0 <= i <= roms@.len(),
            views == roms@.map_values(|r: Rom| r@),
            out@ == old(out)@ + render_roms(views.take(i as int)),
        decreases roms@.len() - i,
    {
        push_rom(out, &roms[i]);
        assert(views.take(i + 1).drop_last() =~= views.take(i as int));
        i = i + 1;
        assert(out@ =~= old(out)@ + render_roms(views.take(i as int)));
    }
    assert(views.take(i as int) =~= views);
}

fn push_game(out: &mut Vec<u8>, g: &Game, category: &[u8])
    ensures
        final(out)@ == old(out)@ + render_game(g@, category@),
{
    push_str(out, "\n\t<game");
    push_attribute(out, "name", g.name.as_slice());
    push_str(out, ">");
    push_text_element(out, "\n\t\t", "category", category);
    push_text_element(out, "\n\t\t", "description", g.description.as_slice());
    push_roms(out, &g.roms);
    push_str(out, "\n\t</game>");
    assert(out@ =~= old(out)@ + render_game(g@, category@));
}

fn push_games(out: &mut Vec<u8>, games: &Vec<Game>, category: &[u8])
    ensures
        final(out)@ == old(out)@ + render_games(games@.map_values(|g: Game| g@), category@),
{
    let ghost views = games@.map_values(|g: Game| g@);
    let mut i: usize = 0;
    while i < games.len()
        invariant
            0 <= i <= games@.len(),
            views == games@.map_values(|g: Game| g@),
            out@ == old(out)@ + render_games(views.take(i as int), category@),
        decreases games@.len() - i,
    {
        push_game(out, &games[i], category);
        assert(views.take(i + 1).drop_last() =~= views.take(i as int));
        i = i + 1;
        assert(out@ =~= old(out)@ + render_games(views.take(i as int), category@));
    }
    assert(views.take(i as int) =~= views);
}

/// Writes a catalogue as a canonical XML document whose header carries
/// `homepage`.
pub fn write_xml(d: &CatalogDocument, homepage: &[u8]) -> (r: Vec<u8>)
    ensures
        r@ == render(d@, homepage@),
{
    let mut out: Vec<u8> = Vec::new();
    push_str(
        &mut out,
        "<?xml version=\"1.0\"?>\n<!DOCTYPE datafile PUBLIC \"-//Logiqx//DTD ROM Management Datafile//EN\" \"http://www.logiqx.com/Dats/datafile.dtd\">",
    );
    push_str(&mut out, "\n<datafile>");
    push_header(&mut out, &d.header, homepage);
    push_games(&mut out, &d.games, d.header.category.as_slice());
    push_str(&mut out, "\n</datafile>");
    assert(out@ =~= render(d@, homepage@));
    out
}

/// Why a legacy catalogue could not be converted.
#[derive(Clone, Copy, Debug, PartialEq, Eq, Structural)]
pub enum ConvertError {
    /// The document is not a well-formed legacy catalogue.
    Parse,
}

/// The canonical document for the legacy catalogue `s`, or `None` where `s`
/// is malformed.
pub open spec fn converted(s: Seq<u8>, homepage: Seq<u8>) -> Option<Seq<u8>> {
    match catalog_of(s) {
        Some(d) => Some(render(d, homepage)),
        None => None,
    }
}

/// Converts a legacy catalogue into the canonical XML document, with
/// `homepage` added to its header.
pub fn convert_to_xml_dat(s: &str, homepage: &str) -> (r: Result<Vec<u8>, ConvertError>)
    ensures
        match r {
            Ok(v) => converted(s.spec_bytes(), homepage.spec_bytes()) == Some(v@),
            Err(e) => e == ConvertError::Parse && converted(
                s.spec_bytes(),
                homepage.spec_bytes(),
            ) is None,
        },
{
    match parse_catalog(s.as_bytes()) {
        Some(d) => Ok(write_xml(&d, homepage.as_bytes())),
        None => Err(ConvertError::Parse),
    }
}

/// Converting the same document with the same homepage twice gives the same
/// bytes: the result depends on the two inputs alone.
pub proof fn lemma_conversion_repeats(s1: Seq<u8>, s2: Seq<u8>, h1: Seq<u8>, h2: Seq<u8>)
    requires
        s1 == s2,
        h1 == h2,
    ensures
        converted(s1, h1) == converted(s2, h2),
{
}

/// The games of the output follow one another in the order of the model: the
/// output for two lists of games one after the other is the output for the
/// first list followed by that for the second.
pub proof fn lemma_games_keep_order(a: Seq<GameView>, b: Seq<GameView>, category: Seq<u8>)
    ensures
        render_games(a + b, category) == render_games(a, category) + render_games(b, category),
    decreases b.len(),
{
    if b.len() == 0 {
        assert(a + b =~= a);
        assert(render_games(b, category) =~= Seq::<u8>::empty());
        assert(render_games(a, category) + render_games(b, category) =~= render_games(a, category));
    } else {
        lemma_games_keep_order(a, b.drop_last(), category);
        assert((a + b).drop_last() =~= a + b.drop_last());
        assert((a + b).last() == b.last());
        assert(render_games(a + b, category) =~= render_games(a, category) + render_games(
            b,
            category,
        ));
    }
}

/// The roms of a game follow one another in the order of the model.
pub proof fn lemma_roms_keep_order(a: Seq<RomView>, b: Seq<RomView>)
    ensures
        render_roms(a + b) == render_roms(a) + render_roms(b),
    decreases b.len(),
{
    if b.len() == 0 {
        assert(a + b =~= a);
        assert(render_roms(a) + render_roms(b) =~= render_roms(a));
    } else {
        lemma_roms_keep_order(a, b.drop_last());
        assert((a + b).drop_last() =~= a + b.drop_last());
        assert((a + b).last() == b.last());
        assert(render_roms(a + b) =~= render_roms(a) + render_roms(b));
    }
}

/// Once the parser has failed, it stays failed.
pub proof fn lemma_failure_is_final(s: Seq<u8>, t: Seq<Token>, n: nat, m: nat)
    requires
        n <= m,
        parse_run(s, t, n).0.failed,
    ensures
        parse_run(s, t, m).0.failed,
    decreases m - n,
{
    if n < m {
        lemma_failure_is_final(s, t, n, (m - 1) as nat);
    }
}

/// A rom block that closes without one of its five attributes makes the
/// whole document malformed: it converts to nothing, not to part of a
/// document.
pub proof fn lemma_incomplete_rom_rejected(s: Seq<u8>, t: Seq<Token>, n: nat, homepage: Seq<u8>)
    requires
        lex(s) == Some(t),
        n < t.len(),
        t[n as int] == Token::Close,
        !parse_run(s, t, n).0.failed,
        parse_run(s, t, n).0.pending is None,
        parse_run(s, t, n).0.depth == 2,
        parse_run(s, t, n).0.in_rom,
        parse_run(s, t, n).0.r_name is None || parse_run(s, t, n).0.r_size is None || parse_run(
            s,
            t,
            n,
        ).0.r_crc is None || parse_run(s, t, n).0.r_md5 is None || parse_run(s, t, n).0.r_sha1 is None,
    ensures
        parse_tokens(s, t) is None,
        catalog_of(s) is None,
        converted(s, homepage) is None,
{
    assert(parse_run(s, t, n + 1).0.failed);
    lemma_failure_is_final(s, t, n + 1, t.len());
}

} // verus!
