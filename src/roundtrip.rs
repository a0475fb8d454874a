//! What the converter makes of a document written in the plainest way: each
//! key, bracket and quoted value followed by one space.
use vstd::prelude::*;
use crate::convert::{
    atom, catalog_of, converted, game_view_of, header_view_of, is_space, lex, lex_state,
    parse_run, parse_step, render, rom_view_of, text_of, CatalogView, GameSpans, GameView, ParseState,
    HeaderView, LexMode, RomSpans, RomView, Token,
};
use vstd::string::StringSliceAdditionalSpecFns;

verus! {

/// A piece of a legacy document: a bare word, a quoted value, or a bracket.
pub ghost enum Piece {
    Word(Seq<u8>),
    Quoted(Seq<u8>),
    Open,
    Close,
}

/// The text of a piece, followed by a space.
pub open spec fn piece_text(p: Piece) -> Seq<u8> {
    match p {
        Piece::Word(w) => w.push(32),
        Piece::Quoted(v) => seq![34u8] + v + seq![34u8, 32u8],
        Piece::Open => seq![40u8, 32u8],
        Piece::Close => seq![41u8, 32u8],
    }
}

/// The text of pieces written one after another.
pub open spec fn pieces_text(ps: Seq<Piece>) -> Seq<u8>
    decreases ps.len(),
{
    if ps.len() == 0 {
        Seq::empty()
    } else {
        pieces_text(ps.drop_last()) + piece_text(ps.last())
    }
}

/// The token that a piece written at offset `n` gives.
pub open spec fn piece_token(p: Piece, n: int) -> Token {
    match p {
        Piece::Word(w) => atom(n, n + w.len()),
        Piece::Quoted(v) => atom(n + 1, n + 1 + v.len()),
        Piece::Open => Token::Open,
        Piece::Close => Token::Close,
    }
}

pub open spec fn pieces_tokens(ps: Seq<Piece>) -> Seq<Token>
    decreases ps.len(),
{
    if ps.len() == 0 {
        Seq::empty()
    } else {
        pieces_tokens(ps.drop_last()).push(piece_token(ps.last(), pieces_text(ps.drop_last()).len() as int))
    }
}

pub open spec fn is_word_byte(b: u8) -> bool {
    !is_space(b) && b != 40 && b != 41 && b != 34
}

/// A word is not empty and holds no space, bracket or quote; a quoted value
/// holds no quote.
pub open spec fn piece_ok(p: Piece) -> bool {
    match p {
        Piece::Word(w) => w.len() > 0 && forall|i: int| 0 <= i < w.len() ==> is_word_byte(#[trigger] w[i]),
        Piece::Quoted(v) => forall|i: int| 0 <= i < v.len() ==> #[trigger] v[i] != 34,
        _ => true,
    }
}

proof fn lemma_word_run(s: Seq<u8>, n: int, w: Seq<u8>, t: Seq<Token>, k: int)
    requires
        0 <= n,
        lex_state(s, n as nat) == (LexMode::Between, t),
        1 <= k <= w.len(),
        n + w.len() <= s.len(),
        forall|j: int| 0 <= j < w.len() ==> s[n + j] == #[trigger] w[j],
        forall|i: int| 0 <= i < w.len() ==> is_word_byte(#[trigger] w[i]),
    ensures
        lex_state(s, (n + k) as nat) == (LexMode::Word { start: n as usize }, t),
    decreases k,
{
    if k > 1 {
        lemma_word_run(s, n, w, t, k - 1);
        assert(is_word_byte(w[k - 1]));
        assert(s[n + k - 1] == w[k - 1]);
    } else {
        assert(is_word_byte(w[0]));
        assert(s[n + 0] == w[0]);
    }
}

proof fn lemma_quoted_run(s: Seq<u8>, n: int, v: Seq<u8>, t: Seq<Token>, k: int)
    requires
        0 <= n,
        lex_state(s, n as nat) == (LexMode::Between, t),
        0 <= k <= v.len(),
        n + 1 + v.len() <= s.len(),
        s[n] == 34,
        forall|j: int| 0 <= j < v.len() ==> s[n + 1 + j] == #[trigger] v[j],
        forall|i: int| 0 <= i < v.len() ==> #[trigger] v[i] != 34,
    ensures
        lex_state(s, (n + 1 + k) as nat) == (LexMode::Quoted { start: (n + 1) as usize }, t),
    decreases k,
{
    if k > 0 {
        lemma_quoted_run(s, n, v, t, k - 1);
        assert(v[k - 1] != 34);
        assert(s[n + 1 + (k - 1)] == v[k - 1]);
    }
}

proof fn lemma_lex_piece(s: Seq<u8>, n: int, p: Piece, t: Seq<Token>)
    requires
        0 <= n,
        lex_state(s, n as nat) == (LexMode::Between, t),
        n + piece_text(p).len() <= s.len(),
        s.subrange(n, n + piece_text(p).len()) == piece_text(p),
        piece_ok(p),
    ensures
        lex_state(s, (n + piece_text(p).len()) as nat) == (LexMode::Between, t.push(
            piece_token(p, n),
        )),
{
    let pt = piece_text(p);
    assert forall|j: int| 0 <= j < pt.len() implies s[n + j] == #[trigger] pt[j] by {
        assert(s.subrange(n, n + pt.len())[j] == s[n + j]);
    }
    match p {
        Piece::Word(w) => {
            assert forall|j: int| 0 <= j < w.len() implies s[n + j] == #[trigger] w[j] by {
                assert(pt[j] == w[j]);
            }
            lemma_word_run(s, n, w, t, w.len() as int);
            assert(pt[w.len() as int] == 32);
        },
        Piece::Quoted(v) => {
            assert(pt[0] == 34);
            assert forall|j: int| 0 <= j < v.len() implies s[n + 1 + j] == #[trigger] v[j] by {
                assert(pt[1 + j] == v[j]);
            }
            lemma_quoted_run(s, n, v, t, v.len() as int);
            assert(pt[1 + v.len() as int] == 34);
            assert(pt[2 + v.len() as int] == 32);
            assert(lex_state(s, (n + 2 + v.len()) as nat) == (LexMode::Between, t.push(
                piece_token(p, n),
            )));
        },
        Piece::Open => {
            assert(pt[0] == 40);
            assert(pt[1] == 32);
            assert(lex_state(s, (n + 1) as nat) == (LexMode::Between, t.push(Token::Open)));
        },
        Piece::Close => {
            assert(pt[0] == 41);
            assert(pt[1] == 32);
            assert(lex_state(s, (n + 1) as nat) == (LexMode::Between, t.push(Token::Close)));
        },
    }
}

proof fn lemma_lex_pieces(s: Seq<u8>, ps: Seq<Piece>)
    requires
        pieces_text(ps).len() <= s.len(),
        s.subrange(0, pieces_text(ps).len() as int) == pieces_text(ps),
        forall|k: int| 0 <= k < ps.len() ==> piece_ok(#[trigger] ps[k]),
    ensures
        lex_state(s, pieces_text(ps).len()) == (LexMode::Between, pieces_tokens(ps)),
    decreases ps.len(),
{
    if ps.len() > 0 {
        let q = ps.drop_last();
        let a = pieces_text(q);
        let b = piece_text(ps.last());
        assert(pieces_text(ps) == a + b);
        assert(s.subrange(0, a.len() as int) =~= a) by {
            assert(s.subrange(0, a.len() as int) =~= pieces_text(ps).subrange(0, a.len() as int));
        }
        assert forall|k: int| 0 <= k < q.len() implies piece_ok(#[trigger] q[k]) by {
            assert(q[k] == ps[k]);
        }
        lemma_lex_pieces(s, q);
        assert(piece_ok(ps[ps.len() - 1]));
        assert(s.subrange(a.len() as int, (a.len() + b.len()) as int) =~= b) by {
            assert(s.subrange(a.len() as int, (a.len() + b.len()) as int) =~= pieces_text(ps).subrange(
                a.len() as int,
                (a.len() + b.len()) as int,
            ));
        }
        lemma_lex_piece(s, a.len() as int, ps.last(), pieces_tokens(q));
    }
}

proof fn lemma_tokens_len(ps: Seq<Piece>)
    ensures
        pieces_tokens(ps).len() == ps.len(),
    decreases ps.len(),
{
    if ps.len() > 0 {
        lemma_tokens_len(ps.drop_last());
    }
}

/// Where piece `k` starts in the text of `ps`.
pub open spec fn offset(ps: Seq<Piece>, k: int) -> int {
    pieces_text(ps.take(k)).len() as int
}

proof fn lemma_piece_at(ps: Seq<Piece>, k: int)
    requires
        0 <= k < ps.len(),
    ensures
        pieces_tokens(ps).len() == ps.len(),
        pieces_tokens(ps)[k] == piece_token(ps[k], offset(ps, k)),
        offset(ps, k) + piece_text(ps[k]).len() <= pieces_text(ps).len(),
        pieces_text(ps).subrange(offset(ps, k), offset(ps, k) + piece_text(ps[k]).len())
            == piece_text(ps[k]),
    decreases ps.len(),
{
    let q = ps.drop_last();
    let a = pieces_text(q);
    let b = piece_text(ps.last());
    if k < ps.len() - 1 {
        lemma_piece_at(q, k);
        assert(q.take(k) =~= ps.take(k));
        assert(q[k] == ps[k]);
        assert(pieces_text(ps).subrange(offset(ps, k), offset(ps, k) + piece_text(ps[k]).len())
            =~= a.subrange(offset(q, k), offset(q, k) + piece_text(q[k]).len()));
    } else {
        assert(ps.take(k) =~= q);
        lemma_tokens_len(q);
        assert(pieces_text(ps).subrange(offset(ps, k), offset(ps, k) + b.len()) =~= b);
    }
}

pub open spec fn unquoted(v: Seq<u8>) -> bool {
    forall|i: int| 0 <= i < v.len() ==> #[trigger] v[i] != 34
}

proof fn lemma_value_at(ps: Seq<Piece>, k: int)
    requires
        0 <= k < ps.len(),
        pieces_text(ps).len() <= usize::MAX,
    ensures
        pieces_tokens(ps).len() == ps.len(),
        match ps[k] {
            Piece::Word(w) => pieces_tokens(ps)[k] matches Token::Atom { span } && text_of(
                pieces_text(ps),
                span,
            ) == w,
            Piece::Quoted(v) => pieces_tokens(ps)[k] matches Token::Atom { span } && text_of(
                pieces_text(ps),
                span,
            ) == v,
            Piece::Open => pieces_tokens(ps)[k] == Token::Open,
            Piece::Close => pieces_tokens(ps)[k] == Token::Close,
        },
{
    lemma_piece_at(ps, k);
    let s = pieces_text(ps);
    let o = offset(ps, k);
    let pt = piece_text(ps[k]);
    match ps[k] {
        Piece::Word(w) => {
            assert(s.subrange(o, o + w.len()) =~= pt.subrange(0, w.len() as int));
            assert(pt.subrange(0, w.len() as int) =~= w);
        },
        Piece::Quoted(v) => {
            assert(s.subrange(o + 1, o + 1 + v.len()) =~= pt.subrange(1, 1 + v.len() as int));
            assert(pt.subrange(1, 1 + v.len() as int) =~= v);
        },
        _ => {},
    }
}

proof fn lemma_distinct_keys()
    ensures
        "name".spec_bytes() != "description".spec_bytes(),
        "name".spec_bytes() != "category".spec_bytes(),
        "name".spec_bytes() != "version".spec_bytes(),
        "name".spec_bytes() != "author".spec_bytes(),
        "description".spec_bytes() != "category".spec_bytes(),
        "description".spec_bytes() != "version".spec_bytes(),
        "description".spec_bytes() != "author".spec_bytes(),
        "category".spec_bytes() != "version".spec_bytes(),
        "category".spec_bytes() != "author".spec_bytes(),
        "version".spec_bytes() != "author".spec_bytes(),
        "name".spec_bytes() != "size".spec_bytes(),
        "name".spec_bytes() != "crc".spec_bytes(),
        "name".spec_bytes() != "md5".spec_bytes(),
        "name".spec_bytes() != "sha1".spec_bytes(),
        "size".spec_bytes() != "crc".spec_bytes(),
        "size".spec_bytes() != "md5".spec_bytes(),
        "size".spec_bytes() != "sha1".spec_bytes(),
        "crc".spec_bytes() != "md5".spec_bytes(),
        "crc".spec_bytes() != "sha1".spec_bytes(),
        "md5".spec_bytes() != "sha1".spec_bytes(),
        "game".spec_bytes() != "clrmamepro".spec_bytes(),
{
    broadcast use vstd::string::is_ascii_spec_bytes;
    reveal_strlit("clrmamepro");
    reveal_strlit("game");
    reveal_strlit("rom");
    reveal_strlit("name");
    reveal_strlit("description");
    reveal_strlit("category");
    reveal_strlit("version");
    reveal_strlit("author");
    reveal_strlit("size");
    reveal_strlit("crc");
    reveal_strlit("md5");
    reveal_strlit("sha1");
    assert(vstd::string::is_ascii("clrmamepro"));
    assert(vstd::string::is_ascii("game"));
    assert(vstd::string::is_ascii("rom"));
    assert(vstd::string::is_ascii("name"));
    assert(vstd::string::is_ascii("description"));
    assert(vstd::string::is_ascii("category"));
    assert(vstd::string::is_ascii("version"));
    assert(vstd::string::is_ascii("author"));
    assert(vstd::string::is_ascii("size"));
    assert(vstd::string::is_ascii("crc"));
    assert(vstd::string::is_ascii("md5"));
    assert(vstd::string::is_ascii("sha1"));
    assert("name".spec_bytes().len() != "description".spec_bytes().len() || "name".spec_bytes()[0] != "description".spec_bytes()[0] || "name".spec_bytes()[1] != "description".spec_bytes()[1]);
    assert("name".spec_bytes().len() != "category".spec_bytes().len() || "name".spec_bytes()[0] != "category".spec_bytes()[0] || "name".spec_bytes()[1] != "category".spec_bytes()[1]);
    assert("name".spec_bytes().len() != "version".spec_bytes().len() || "name".spec_bytes()[0] != "version".spec_bytes()[0] || "name".spec_bytes()[1] != "version".spec_bytes()[1]);
    assert("name".spec_bytes().len() != "author".spec_bytes().len() || "name".spec_bytes()[0] != "author".spec_bytes()[0] || "name".spec_bytes()[1] != "author".spec_bytes()[1]);
    assert("description".spec_bytes().len() != "category".spec_bytes().len() || "description".spec_bytes()[0] != "category".spec_bytes()[0] || "description".spec_bytes()[1] != "category".spec_bytes()[1]);
    assert("description".spec_bytes().len() != "version".spec_bytes().len() || "description".spec_bytes()[0] != "version".spec_bytes()[0] || "description".spec_bytes()[1] != "version".spec_bytes()[1]);
    assert("description".spec_bytes().len() != "author".spec_bytes().len() || "description".spec_bytes()[0] != "author".spec_bytes()[0] || "description".spec_bytes()[1] != "author".spec_bytes()[1]);
    assert("category".spec_bytes().len() != "version".spec_bytes().len() || "category".spec_bytes()[0] != "version".spec_bytes()[0] || "category".spec_bytes()[1] != "version".spec_bytes()[1]);
    assert("category".spec_bytes().len() != "author".spec_bytes().len() || "category".spec_bytes()[0] != "author".spec_bytes()[0] || "category".spec_bytes()[1] != "author".spec_bytes()[1]);
    assert("version".spec_bytes().len() != "author".spec_bytes().len() || "version".spec_bytes()[0] != "author".spec_bytes()[0] || "version".spec_bytes()[1] != "author".spec_bytes()[1]);
    assert("name".spec_bytes().len() != "size".spec_bytes().len() || "name".spec_bytes()[0] != "size".spec_bytes()[0] || "name".spec_bytes()[1] != "size".spec_bytes()[1]);
    assert("name".spec_bytes().len() != "crc".spec_bytes().len() || "name".spec_bytes()[0] != "crc".spec_bytes()[0] || "name".spec_bytes()[1] != "crc".spec_bytes()[1]);
    assert("name".spec_bytes().len() != "md5".spec_bytes().len() || "name".spec_bytes()[0] != "md5".spec_bytes()[0] || "name".spec_bytes()[1] != "md5".spec_bytes()[1]);
    assert("name".spec_bytes().len() != "sha1".spec_bytes().len() || "name".spec_bytes()[0] != "sha1".spec_bytes()[0] || "name".spec_bytes()[1] != "sha1".spec_bytes()[1]);
    assert("size".spec_bytes().len() != "crc".spec_bytes().len() || "size".spec_bytes()[0] != "crc".spec_bytes()[0] || "size".spec_bytes()[1] != "crc".spec_bytes()[1]);
    assert("size".spec_bytes().len() != "md5".spec_bytes().len() || "size".spec_bytes()[0] != "md5".spec_bytes()[0] || "size".spec_bytes()[1] != "md5".spec_bytes()[1]);
    assert("size".spec_bytes().len() != "sha1".spec_bytes().len() || "size".spec_bytes()[0] != "sha1".spec_bytes()[0] || "size".spec_bytes()[1] != "sha1".spec_bytes()[1]);
    assert("crc".spec_bytes().len() != "md5".spec_bytes().len() || "crc".spec_bytes()[0] != "md5".spec_bytes()[0] || "crc".spec_bytes()[1] != "md5".spec_bytes()[1]);
    assert("crc".spec_bytes().len() != "sha1".spec_bytes().len() || "crc".spec_bytes()[0] != "sha1".spec_bytes()[0] || "crc".spec_bytes()[1] != "sha1".spec_bytes()[1]);
    assert("md5".spec_bytes().len() != "sha1".spec_bytes().len() || "md5".spec_bytes()[0] != "sha1".spec_bytes()[0] || "md5".spec_bytes()[1] != "sha1".spec_bytes()[1]);
    assert("game".spec_bytes().len() != "clrmamepro".spec_bytes().len() || "game".spec_bytes()[0] != "clrmamepro".spec_bytes()[0] || "game".spec_bytes()[1] != "clrmamepro".spec_bytes()[1]);
}


/// The token at `k` is a value whose text is `v`.
pub open spec fn atom_text(s: Seq<u8>, t: Seq<Token>, k: int, v: Seq<u8>) -> bool {
    t[k] matches Token::Atom { span } && text_of(s, span) == v
}

proof fn lemma_parse_header(s: Seq<u8>, t: Seq<Token>, h: HeaderView)
    requires
        t.len() >= 13,
        atom_text(s, t, 0, "clrmamepro".spec_bytes()),
        t[1] == Token::Open,
        atom_text(s, t, 2, "name".spec_bytes()),
        atom_text(s, t, 3, h.name),
        atom_text(s, t, 4, "description".spec_bytes()),
        atom_text(s, t, 5, h.description),
        atom_text(s, t, 6, "category".spec_bytes()),
        atom_text(s, t, 7, h.category),
        atom_text(s, t, 8, "version".spec_bytes()),
        atom_text(s, t, 9, h.version),
        atom_text(s, t, 10, "author".spec_bytes()),
        atom_text(s, t, 11, h.author),
        t[12] == Token::Close,
    ensures
        !parse_run(s, t, 13).0.failed,
        parse_run(s, t, 13).0.depth == 0,
        parse_run(s, t, 13).0.pending is None,
        parse_run(s, t, 13).1 == Seq::<GameSpans>::empty(),
        parse_run(s, t, 13).2 == Seq::<RomSpans>::empty(),
        parse_run(s, t, 13).0.header matches Some(hs) && header_view_of(s, hs) == h,
        !parse_run(s, t, 13).0.in_rom,
{
    lemma_distinct_keys();
    assert(parse_run(s, t, 1) == parse_step(parse_run(s, t, 0).0, parse_run(s, t, 0).1, parse_run(s, t, 0).2, s, t[0]));
    assert(parse_run(s, t, 2) == parse_step(parse_run(s, t, 1).0, parse_run(s, t, 1).1, parse_run(s, t, 1).2, s, t[1]));
    assert(parse_run(s, t, 3) == parse_step(parse_run(s, t, 2).0, parse_run(s, t, 2).1, parse_run(s, t, 2).2, s, t[2]));
    assert(parse_run(s, t, 4) == parse_step(parse_run(s, t, 3).0, parse_run(s, t, 3).1, parse_run(s, t, 3).2, s, t[3]));
    assert(parse_run(s, t, 5) == parse_step(parse_run(s, t, 4).0, parse_run(s, t, 4).1, parse_run(s, t, 4).2, s, t[4]));
    assert(parse_run(s, t, 6) == parse_step(parse_run(s, t, 5).0, parse_run(s, t, 5).1, parse_run(s, t, 5).2, s, t[5]));
    assert(parse_run(s, t, 7) == parse_step(parse_run(s, t, 6).0, parse_run(s, t, 6).1, parse_run(s, t, 6).2, s, t[6]));
    assert(parse_run(s, t, 8) == parse_step(parse_run(s, t, 7).0, parse_run(s, t, 7).1, parse_run(s, t, 7).2, s, t[7]));
    assert(parse_run(s, t, 9) == parse_step(parse_run(s, t, 8).0, parse_run(s, t, 8).1, parse_run(s, t, 8).2, s, t[8]));
    assert(parse_run(s, t, 10) == parse_step(parse_run(s, t, 9).0, parse_run(s, t, 9).1, parse_run(s, t, 9).2, s, t[9]));
    assert(parse_run(s, t, 11) == parse_step(parse_run(s, t, 10).0, parse_run(s, t, 10).1, parse_run(s, t, 10).2, s, t[10]));
    assert(parse_run(s, t, 12) == parse_step(parse_run(s, t, 11).0, parse_run(s, t, 11).1, parse_run(s, t, 11).2, s, t[11]));
    assert(parse_run(s, t, 13) == parse_step(parse_run(s, t, 12).0, parse_run(s, t, 12).1, parse_run(s, t, 12).2, s, t[12]));
}

pub open spec fn rom_pieces(r: RomView) -> Seq<Piece> {
    seq![
        Piece::Word("rom".spec_bytes()),
        Piece::Open,
        Piece::Word("name".spec_bytes()),
        Piece::Quoted(r.name),
        Piece::Word("size".spec_bytes()),
        Piece::Quoted(r.size),
        Piece::Word("crc".spec_bytes()),
        Piece::Quoted(r.crc),
        Piece::Word("md5".spec_bytes()),
        Piece::Quoted(r.md5),
        Piece::Word("sha1".spec_bytes()),
        Piece::Quoted(r.sha1),
        Piece::Close,
    ]
}

pub open spec fn roms_pieces(rs: Seq<RomView>) -> Seq<Piece>
    decreases rs.len(),
{
    if rs.len() == 0 {
        Seq::empty()
    } else {
        roms_pieces(rs.drop_last()) + rom_pieces(rs.last())
    }
}

pub open spec fn game_head_pieces(g: GameView) -> Seq<Piece> {
    seq![
        Piece::Word("game".spec_bytes()),
        Piece::Open,
        Piece::Word("name".spec_bytes()),
        Piece::Quoted(g.name),
        Piece::Word("description".spec_bytes()),
        Piece::Quoted(g.description),
    ]
}

pub open spec fn game_pieces(g: GameView) -> Seq<Piece> {
    game_head_pieces(g) + roms_pieces(g.roms) + seq![Piece::Close]
}

pub open spec fn games_pieces(gs: Seq<GameView>) -> Seq<Piece>
    decreases gs.len(),
{
    if gs.len() == 0 {
        Seq::empty()
    } else {
        games_pieces(gs.drop_last()) + game_pieces(gs.last())
    }
}

pub open spec fn header_pieces(h: HeaderView) -> Seq<Piece> {
    seq![
        Piece::Word("clrmamepro".spec_bytes()),
        Piece::Open,
        Piece::Word("name".spec_bytes()),
        Piece::Quoted(h.name),
        Piece::Word("description".spec_bytes()),
        Piece::Quoted(h.description),
        Piece::Word("category".spec_bytes()),
        Piece::Quoted(h.category),
        Piece::Word("version".spec_bytes()),
        Piece::Quoted(h.version),
        Piece::Word("author".spec_bytes()),
        Piece::Quoted(h.author),
        Piece::Close,
    ]
}

/// A catalogue written in the plain layout: the header block, then one block
/// per game, each holding one block per rom.
pub open spec fn plain_pieces(d: CatalogView) -> Seq<Piece> {
    header_pieces(d.header) + games_pieces(d.games)
}

pub open spec fn rom_unquoted(r: RomView) -> bool {
    unquoted(r.name) && unquoted(r.size) && unquoted(r.crc) && unquoted(r.md5) && unquoted(r.sha1)
}

pub open spec fn game_unquoted(g: GameView) -> bool {
    unquoted(g.name) && unquoted(g.description) && forall|j: int|
        0 <= j < g.roms.len() ==> #[trigger] rom_unquoted(g.roms[j])
}

/// No value of the catalogue holds a quote.
pub open spec fn catalog_unquoted(d: CatalogView) -> bool {
    &&& unquoted(d.header.name) && unquoted(d.header.description) && unquoted(d.header.category)
        && unquoted(d.header.version) && unquoted(d.header.author)
    &&& forall|j: int| 0 <= j < d.games.len() ==> #[trigger] game_unquoted(d.games[j])
}

pub open spec fn all_ok(ps: Seq<Piece>) -> bool {
    forall|k: int| 0 <= k < ps.len() ==> piece_ok(#[trigger] ps[k])
}

proof fn lemma_ok_concat(a: Seq<Piece>, b: Seq<Piece>)
    requires
        all_ok(a),
        all_ok(b),
    ensures
        all_ok(a + b),
{
    assert forall|k: int| 0 <= k < (a + b).len() implies piece_ok(#[trigger] (a + b)[k]) by {
        if k < a.len() {
            assert((a + b)[k] == a[k]);
        } else {
            assert((a + b)[k] == b[k - a.len()]);
        }
    }
}

proof fn lemma_words_ok()
    ensures
        piece_ok(Piece::Word("clrmamepro".spec_bytes())),
        piece_ok(Piece::Word("game".spec_bytes())),
        piece_ok(Piece::Word("rom".spec_bytes())),
        piece_ok(Piece::Word("name".spec_bytes())),
        piece_ok(Piece::Word("description".spec_bytes())),
        piece_ok(Piece::Word("category".spec_bytes())),
        piece_ok(Piece::Word("version".spec_bytes())),
        piece_ok(Piece::Word("author".spec_bytes())),
        piece_ok(Piece::Word("size".spec_bytes())),
        piece_ok(Piece::Word("crc".spec_bytes())),
        piece_ok(Piece::Word("md5".spec_bytes())),
        piece_ok(Piece::Word("sha1".spec_bytes())),
{
    broadcast use vstd::string::is_ascii_spec_bytes;
    reveal_strlit("clrmamepro");
    assert(vstd::string::is_ascii("clrmamepro"));
    reveal_strlit("game");
    assert(vstd::string::is_ascii("game"));
    reveal_strlit("rom");
    assert(vstd::string::is_ascii("rom"));
    reveal_strlit("name");
    assert(vstd::string::is_ascii("name"));
    reveal_strlit("description");
    assert(vstd::string::is_ascii("description"));
    reveal_strlit("category");
    assert(vstd::string::is_ascii("category"));
    reveal_strlit("version");
    assert(vstd::string::is_ascii("version"));
    reveal_strlit("author");
    assert(vstd::string::is_ascii("author"));
    reveal_strlit("size");
    assert(vstd::string::is_ascii("size"));
    reveal_strlit("crc");
    assert(vstd::string::is_ascii("crc"));
    reveal_strlit("md5");
    assert(vstd::string::is_ascii("md5"));
    reveal_strlit("sha1");
    assert(vstd::string::is_ascii("sha1"));
}

proof fn lemma_roms_ok(rs: Seq<RomView>)
    requires
        forall|j: int| 0 <= j < rs.len() ==> #[trigger] rom_unquoted(rs[j]),
    ensures
        all_ok(roms_pieces(rs)),
        roms_pieces(rs).len() == 13 * rs.len(),
    decreases rs.len(),
{
    if rs.len() > 0 {
        let q = rs.drop_last();
        assert forall|j: int| 0 <= j < q.len() implies #[trigger] rom_unquoted(q[j]) by {
            assert(q[j] == rs[j]);
        }
        lemma_roms_ok(q);
        lemma_words_ok();
        assert(rom_unquoted(rs[rs.len() - 1]));
        let b = rom_pieces(rs.last());
        assert(all_ok(b)) by {
            assert forall|k: int| 0 <= k < b.len() implies piece_ok(#[trigger] b[k]) by {
            }
        }
        lemma_ok_concat(roms_pieces(q), b);
    } else {
        assert(roms_pieces(rs) =~= Seq::<Piece>::empty());
    }
}

proof fn lemma_games_ok(gs: Seq<GameView>)
    requires
        forall|j: int| 0 <= j < gs.len() ==> #[trigger] game_unquoted(gs[j]),
    ensures
        all_ok(games_pieces(gs)),
    decreases gs.len(),
{
    if gs.len() > 0 {
        let q = gs.drop_last();
        assert forall|j: int| 0 <= j < q.len() implies #[trigger] game_unquoted(q[j]) by {
            assert(q[j] == gs[j]);
        }
        lemma_games_ok(q);
        let g = gs.last();
        assert(game_unquoted(gs[gs.len() - 1]));
        lemma_words_ok();
        lemma_roms_ok(g.roms);
        let hd = game_head_pieces(g);
        assert(all_ok(hd)) by {
            assert forall|k: int| 0 <= k < hd.len() implies piece_ok(#[trigger] hd[k]) by {
            }
        }
        let cl = seq![Piece::Close];
        assert(all_ok(cl)) by {
            assert forall|k: int| 0 <= k < cl.len() implies piece_ok(#[trigger] cl[k]) by {
            }
        }
        lemma_ok_concat(hd, roms_pieces(g.roms));
        lemma_ok_concat(hd + roms_pieces(g.roms), cl);
        lemma_ok_concat(games_pieces(q), game_pieces(g));
    } else {
        assert(games_pieces(gs) =~= Seq::<Piece>::empty());
    }
}

/// Every token of a document written as pieces is the token of its piece.
pub open spec fn tokens_match(s: Seq<u8>, t: Seq<Token>, ps: Seq<Piece>) -> bool {
    forall|k: int| 0 <= k < ps.len() ==> #[trigger] token_text(s, t, ps, k)
}

/// `b` stands at `n` in `ps`.
pub open spec fn placed(ps: Seq<Piece>, n: int, b: Seq<Piece>) -> bool {
    0 <= n && n + b.len() <= ps.len() && ps.subrange(n, n + b.len()) == b
}

proof fn lemma_placed_split(ps: Seq<Piece>, n: int, a: Seq<Piece>, b: Seq<Piece>)
    requires
        placed(ps, n, a + b),
    ensures
        placed(ps, n, a),
        placed(ps, n + a.len(), b),
{
    assert(ps.subrange(n, n + a.len()) =~= (a + b).subrange(0, a.len() as int));
    assert((a + b).subrange(0, a.len() as int) =~= a);
    assert(ps.subrange(n + a.len(), n + a.len() + b.len()) =~= (a + b).subrange(
        a.len() as int,
        (a.len() + b.len()) as int,
    ));
    assert((a + b).subrange(a.len() as int, (a.len() + b.len()) as int) =~= b);
}

proof fn lemma_placed_at(ps: Seq<Piece>, n: int, b: Seq<Piece>, k: int)
    requires
        placed(ps, n, b),
        0 <= k < b.len(),
    ensures
        ps[n + k] == b[k],
{
    assert(ps.subrange(n, n + b.len())[k] == ps[n + k]);
}

proof fn lemma_roms_bounded(s: Seq<u8>, t: Seq<Token>, n: nat)
    ensures
        parse_run(s, t, n).2.len() <= n,
    decreases n,
{
    if n > 0 {
        lemma_roms_bounded(s, t, (n - 1) as nat);
    }
}

proof fn lemma_text_longer(ps: Seq<Piece>)
    ensures
        ps.len() <= pieces_text(ps).len(),
    decreases ps.len(),
{
    if ps.len() > 0 {
        lemma_text_longer(ps.drop_last());
    }
}

/// The parser at the top level, between blocks.
pub open spec fn at_top(p: (ParseState, Seq<GameSpans>, Seq<RomSpans>)) -> bool {
    !p.0.failed && p.0.depth == 0 && p.0.pending is None && !p.0.in_rom
}

/// The parser inside a game block, between its entries.
pub open spec fn in_game(p: (ParseState, Seq<GameSpans>, Seq<RomSpans>)) -> bool {
    !p.0.failed && p.0.depth == 1 && p.0.section == 2 && p.0.pending is None && !p.0.in_rom
}

proof fn lemma_parse_rom_at(s: Seq<u8>, t: Seq<Token>, ps: Seq<Piece>, n: int, r: RomView)
    requires
        tokens_match(s, t, ps),
        t.len() == ps.len(),
        placed(ps, n, rom_pieces(r)),
        in_game(parse_run(s, t, n as nat)),
    ensures
        in_game(parse_run(s, t, (n + 13) as nat)),
        parse_run(s, t, (n + 13) as nat).0.g_name == parse_run(s, t, n as nat).0.g_name,
        parse_run(s, t, (n + 13) as nat).0.g_description == parse_run(s, t, n as nat).0.g_description,
        parse_run(s, t, (n + 13) as nat).0.g_roms_start == parse_run(s, t, n as nat).0.g_roms_start,
        parse_run(s, t, (n + 13) as nat).0.header == parse_run(s, t, n as nat).0.header,
        parse_run(s, t, (n + 13) as nat).1 == parse_run(s, t, n as nat).1,
        parse_run(s, t, (n + 13) as nat).2.len() == parse_run(s, t, n as nat).2.len() + 1,
        parse_run(s, t, (n + 13) as nat).2.drop_last() == parse_run(s, t, n as nat).2,
        rom_view_of(s, parse_run(s, t, (n + 13) as nat).2.last()) == r,
{
    lemma_distinct_keys();
    let blk = rom_pieces(r);
    assert forall|k: int| 0 <= k < 13 implies ps[n + k] == #[trigger] blk[k] by {
        lemma_placed_at(ps, n, blk, k);
    }
    assert(token_text(s, t, ps, n + 0));
    assert(token_text(s, t, ps, n + 1));
    assert(token_text(s, t, ps, n + 2));
    assert(token_text(s, t, ps, n + 3));
    assert(token_text(s, t, ps, n + 4));
    assert(token_text(s, t, ps, n + 5));
    assert(token_text(s, t, ps, n + 6));
    assert(token_text(s, t, ps, n + 7));
    assert(token_text(s, t, ps, n + 8));
    assert(token_text(s, t, ps, n + 9));
    assert(token_text(s, t, ps, n + 10));
    assert(token_text(s, t, ps, n + 11));
    assert(token_text(s, t, ps, n + 12));
    assert(parse_run(s, t, (n + 1) as nat) == parse_step(parse_run(s, t, (n) as nat).0, parse_run(s, t, (n) as nat).1, parse_run(s, t, (n) as nat).2, s, t[n]));
    assert(parse_run(s, t, (n + 2) as nat) == parse_step(parse_run(s, t, (n + 1) as nat).0, parse_run(s, t, (n + 1) as nat).1, parse_run(s, t, (n + 1) as nat).2, s, t[n + 1]));
    assert(parse_run(s, t, (n + 3) as nat) == parse_step(parse_run(s, t, (n + 2) as nat).0, parse_run(s, t, (n + 2) as nat).1, parse_run(s, t, (n + 2) as nat).2, s, t[n + 2]));
    assert(parse_run(s, t, (n + 4) as nat) == parse_step(parse_run(s, t, (n + 3) as nat).0, parse_run(s, t, (n + 3) as nat).1, parse_run(s, t, (n + 3) as nat).2, s, t[n + 3]));
    assert(parse_run(s, t, (n + 5) as nat) == parse_step(parse_run(s, t, (n + 4) as nat).0, parse_run(s, t, (n + 4) as nat).1, parse_run(s, t, (n + 4) as nat).2, s, t[n + 4]));
    assert(parse_run(s, t, (n + 6) as nat) == parse_step(parse_run(s, t, (n + 5) as nat).0, parse_run(s, t, (n + 5) as nat).1, parse_run(s, t, (n + 5) as nat).2, s, t[n + 5]));
    assert(parse_run(s, t, (n + 7) as nat) == parse_step(parse_run(s, t, (n + 6) as nat).0, parse_run(s, t, (n + 6) as nat).1, parse_run(s, t, (n + 6) as nat).2, s, t[n + 6]));
    assert(parse_run(s, t, (n + 8) as nat) == parse_step(parse_run(s, t, (n + 7) as nat).0, parse_run(s, t, (n + 7) as nat).1, parse_run(s, t, (n + 7) as nat).2, s, t[n + 7]));
    assert(parse_run(s, t, (n + 9) as nat) == parse_step(parse_run(s, t, (n + 8) as nat).0, parse_run(s, t, (n + 8) as nat).1, parse_run(s, t, (n + 8) as nat).2, s, t[n + 8]));
    assert(parse_run(s, t, (n + 10) as nat) == parse_step(parse_run(s, t, (n + 9) as nat).0, parse_run(s, t, (n + 9) as nat).1, parse_run(s, t, (n + 9) as nat).2, s, t[n + 9]));
    assert(parse_run(s, t, (n + 11) as nat) == parse_step(parse_run(s, t, (n + 10) as nat).0, parse_run(s, t, (n + 10) as nat).1, parse_run(s, t, (n + 10) as nat).2, s, t[n + 10]));
    assert(parse_run(s, t, (n + 12) as nat) == parse_step(parse_run(s, t, (n + 11) as nat).0, parse_run(s, t, (n + 11) as nat).1, parse_run(s, t, (n + 11) as nat).2, s, t[n + 11]));
    assert(parse_run(s, t, (n + 13) as nat) == parse_step(parse_run(s, t, (n + 12) as nat).0, parse_run(s, t, (n + 12) as nat).1, parse_run(s, t, (n + 12) as nat).2, s, t[n + 12]));
    assert(parse_run(s, t, (n + 13) as nat).2.drop_last() =~= parse_run(s, t, n as nat).2);
}

proof fn lemma_parse_game_head_at(s: Seq<u8>, t: Seq<Token>, ps: Seq<Piece>, n: int, g: GameView)
    requires
        tokens_match(s, t, ps),
        t.len() == ps.len(),
        placed(ps, n, game_head_pieces(g)),
        at_top(parse_run(s, t, n as nat)),
        ps.len() <= usize::MAX,
    ensures
        in_game(parse_run(s, t, (n + 6) as nat)),
        parse_run(s, t, (n + 6) as nat).0.g_name matches Some(x) && text_of(s, x) == g.name,
        parse_run(s, t, (n + 6) as nat).0.g_description matches Some(x) && text_of(s, x)
            == g.description,
        parse_run(s, t, (n + 6) as nat).0.g_roms_start == parse_run(s, t, n as nat).2.len(),
        parse_run(s, t, (n + 6) as nat).0.header == parse_run(s, t, n as nat).0.header,
        parse_run(s, t, (n + 6) as nat).1 == parse_run(s, t, n as nat).1,
        parse_run(s, t, (n + 6) as nat).2 == parse_run(s, t, n as nat).2,
{
    lemma_distinct_keys();
    lemma_roms_bounded(s, t, n as nat);
    let blk = game_head_pieces(g);
    assert forall|k: int| 0 <= k < 6 implies ps[n + k] == #[trigger] blk[k] by {
        lemma_placed_at(ps, n, blk, k);
    }
    assert(token_text(s, t, ps, n + 0));
    assert(token_text(s, t, ps, n + 1));
    assert(token_text(s, t, ps, n + 2));
    assert(token_text(s, t, ps, n + 3));
    assert(token_text(s, t, ps, n + 4));
    assert(token_text(s, t, ps, n + 5));
    assert(parse_run(s, t, (n + 1) as nat) == parse_step(parse_run(s, t, (n) as nat).0, parse_run(s, t, (n) as nat).1, parse_run(s, t, (n) as nat).2, s, t[n]));
    assert(parse_run(s, t, (n + 2) as nat) == parse_step(parse_run(s, t, (n + 1) as nat).0, parse_run(s, t, (n + 1) as nat).1, parse_run(s, t, (n + 1) as nat).2, s, t[n + 1]));
    assert(parse_run(s, t, (n + 3) as nat) == parse_step(parse_run(s, t, (n + 2) as nat).0, parse_run(s, t, (n + 2) as nat).1, parse_run(s, t, (n + 2) as nat).2, s, t[n + 2]));
    assert(parse_run(s, t, (n + 4) as nat) == parse_step(parse_run(s, t, (n + 3) as nat).0, parse_run(s, t, (n + 3) as nat).1, parse_run(s, t, (n + 3) as nat).2, s, t[n + 3]));
    assert(parse_run(s, t, (n + 5) as nat) == parse_step(parse_run(s, t, (n + 4) as nat).0, parse_run(s, t, (n + 4) as nat).1, parse_run(s, t, (n + 4) as nat).2, s, t[n + 4]));
    assert(parse_run(s, t, (n + 6) as nat) == parse_step(parse_run(s, t, (n + 5) as nat).0, parse_run(s, t, (n + 5) as nat).1, parse_run(s, t, (n + 5) as nat).2, s, t[n + 5]));
}

/// The rom blocks of one game, one after another, add their roms in order.
proof fn lemma_parse_roms_at(s: Seq<u8>, t: Seq<Token>, ps: Seq<Piece>, n: int, rs: Seq<RomView>)
    requires
        tokens_match(s, t, ps),
        t.len() == ps.len(),
        placed(ps, n, roms_pieces(rs)),
        roms_pieces(rs).len() == 13 * rs.len(),
        in_game(parse_run(s, t, n as nat)),
    ensures
        in_game(parse_run(s, t, (n + 13 * rs.len()) as nat)),
        parse_run(s, t, (n + 13 * rs.len()) as nat).0.g_name == parse_run(s, t, n as nat).0.g_name,
        parse_run(s, t, (n + 13 * rs.len()) as nat).0.g_description == parse_run(
            s,
            t,
            n as nat,
        ).0.g_description,
        parse_run(s, t, (n + 13 * rs.len()) as nat).0.g_roms_start == parse_run(
            s,
            t,
            n as nat,
        ).0.g_roms_start,
        parse_run(s, t, (n + 13 * rs.len()) as nat).0.header == parse_run(s, t, n as nat).0.header,
        parse_run(s, t, (n + 13 * rs.len()) as nat).1 == parse_run(s, t, n as nat).1,
        parse_run(s, t, (n + 13 * rs.len()) as nat).2.len() == parse_run(s, t, n as nat).2.len()
            + rs.len(),
        parse_run(s, t, (n + 13 * rs.len()) as nat).2.subrange(
            0,
            parse_run(s, t, n as nat).2.len() as int,
        ) == parse_run(s, t, n as nat).2,
        parse_run(s, t, (n + 13 * rs.len()) as nat).2.subrange(
            parse_run(s, t, n as nat).2.len() as int,
            parse_run(s, t, (n + 13 * rs.len()) as nat).2.len() as int,
        ).map_values(|x: RomSpans| rom_view_of(s, x)) == rs,
    decreases rs.len(),
{
    let p0 = parse_run(s, t, n as nat);
    if rs.len() == 0 {
        assert(p0.2.subrange(0, p0.2.len() as int) =~= p0.2);
        assert(p0.2.subrange(p0.2.len() as int, p0.2.len() as int).map_values(
            |x: RomSpans| rom_view_of(s, x),
        ) =~= rs);
    } else {
        let q = rs.drop_last();
        lemma_placed_split(ps, n, roms_pieces(q), rom_pieces(rs.last()));
        assert(roms_pieces(q).len() == 13 * q.len()) by {
            assert(roms_pieces(rs).len() == roms_pieces(q).len() + 13);
        }
        lemma_parse_roms_at(s, t, ps, n, q);
        let m = n + 13 * q.len();
        lemma_parse_rom_at(s, t, ps, m, rs.last());
        assert(m + 13 == n + 13 * rs.len()) by (nonlinear_arith)
            requires
                m == n + 13 * q.len(),
                q.len() + 1 == rs.len(),
        ;
        let p1 = parse_run(s, t, m as nat);
        let p2 = parse_run(s, t, (m + 13) as nat);
        assert(p2.2.subrange(0, p0.2.len() as int) =~= p1.2.subrange(0, p0.2.len() as int));
        assert(p2.2.subrange(p0.2.len() as int, p2.2.len() as int).map_values(
            |x: RomSpans| rom_view_of(s, x),
        ) =~= p1.2.subrange(p0.2.len() as int, p1.2.len() as int).map_values(
            |x: RomSpans| rom_view_of(s, x),
        ).push(rs.last()));
        assert(q.push(rs.last()) =~= rs);
    }
}

pub open spec fn games_are(
    s: Seq<u8>,
    p: (ParseState, Seq<GameSpans>, Seq<RomSpans>),
    gs: Seq<GameView>,
) -> bool {
    &&& p.1.len() == gs.len()
    &&& forall|j: int| 0 <= j < gs.len() ==> #[trigger] p.1[j].roms_end <= p.2.len()
    &&& forall|j: int| 0 <= j < gs.len() ==> p.1[j].roms_start <= p.1[j].roms_end
    &&& forall|j: int| 0 <= j < gs.len() ==> #[trigger] game_view_of(s, p.1[j], p.2) == gs[j]
}

/// The game blocks, one after another, add their games in order.
proof fn lemma_parse_games_at(s: Seq<u8>, t: Seq<Token>, ps: Seq<Piece>, n: int, gs: Seq<GameView>)
    requires
        tokens_match(s, t, ps),
        t.len() == ps.len(),
        placed(ps, n, games_pieces(gs)),
        at_top(parse_run(s, t, n as nat)),
        parse_run(s, t, n as nat).1.len() == 0,
        forall|j: int| 0 <= j < gs.len() ==> #[trigger] game_unquoted(gs[j]),
        ps.len() <= usize::MAX,
    ensures
        at_top(parse_run(s, t, (n + games_pieces(gs).len()) as nat)),
        parse_run(s, t, (n + games_pieces(gs).len()) as nat).0.header == parse_run(
            s,
            t,
            n as nat,
        ).0.header,
        games_are(s, parse_run(s, t, (n + games_pieces(gs).len()) as nat), gs),
    decreases gs.len(),
{
    if gs.len() == 0 {
        assert(games_pieces(gs).len() == 0);
    } else {
        let q = gs.drop_last();
        let g = gs.last();
        assert forall|j: int| 0 <= j < q.len() implies #[trigger] game_unquoted(q[j]) by {
            assert(q[j] == gs[j]);
        }
        assert(game_unquoted(gs[gs.len() - 1]));
        lemma_roms_ok(g.roms);
        lemma_placed_split(ps, n, games_pieces(q), game_pieces(g));
        lemma_parse_games_at(s, t, ps, n, q);
        let m = n + games_pieces(q).len();
        let hd = game_head_pieces(g);
        let rp = roms_pieces(g.roms);
        lemma_placed_split(ps, m, hd + rp, seq![Piece::Close]);
        lemma_placed_split(ps, m, hd, rp);
        let p1 = parse_run(s, t, m as nat);
        lemma_parse_game_head_at(s, t, ps, m, g);
        lemma_parse_roms_at(s, t, ps, m + 6, g.roms);
        let e = m + 6 + 13 * g.roms.len();
        let p3 = parse_run(s, t, e as nat);
        lemma_roms_bounded(s, t, e as nat);
        lemma_placed_at(ps, m + hd.len() + rp.len(), seq![Piece::Close], 0);
        assert(token_text(s, t, ps, e));
        assert(t[e] == Token::Close);
        let p4 = parse_run(s, t, (e + 1) as nat);
        assert(p4 == parse_step(p3.0, p3.1, p3.2, s, t[e]));
        assert(e + 1 == n + games_pieces(gs).len());
        let g_new = p4.1.last();
        assert(p4.1 == p1.1.push(g_new));
        assert(p4.2 == p3.2);
        assert(g_new.roms_start == p1.2.len());
        assert(g_new.roms_end == p3.2.len());
        assert(p4.2.subrange(g_new.roms_start as int, g_new.roms_end as int).map_values(
            |x: RomSpans| rom_view_of(s, x),
        ) =~= g.roms);
        assert(game_view_of(s, g_new, p4.2) == g);
        assert forall|j: int| 0 <= j < gs.len() implies #[trigger] game_view_of(s, p4.1[j], p4.2)
            == gs[j] by {
            if j < q.len() {
                assert(p4.1[j] == p1.1[j]);
                assert(p1.1[j].roms_end <= p1.2.len());
                assert(p4.2.subrange(p1.1[j].roms_start as int, p1.1[j].roms_end as int) =~= p1.2.subrange(
                    p1.1[j].roms_start as int,
                    p1.1[j].roms_end as int,
                ));
                assert(game_view_of(s, p1.1[j], p1.2) == q[j]);
            }
        }
        assert forall|j: int| 0 <= j < gs.len() implies #[trigger] p4.1[j].roms_end <= p4.2.len() by {
            if j < q.len() {
                assert(p4.1[j] == p1.1[j]);
                assert(p1.1[j].roms_end <= p1.2.len());
            }
        }
        assert forall|j: int| 0 <= j < gs.len() implies p4.1[j].roms_start <= p4.1[j].roms_end by {
            if j < q.len() {
                assert(p4.1[j] == p1.1[j]);
            }
        }
    }
}

/// A catalogue written in the plain layout (each key, bracket and quoted
/// value followed by one space), whose values hold no quote, parses back into
/// exactly that catalogue, whatever its number of games and of roms in each;
/// its conversion is the canonical document of that catalogue, with the
/// homepage that was supplied.
pub proof fn lemma_plain_round_trip(d: CatalogView, homepage: Seq<u8>)
    requires
        catalog_unquoted(d),
        pieces_text(plain_pieces(d)).len() <= usize::MAX,
    ensures
        catalog_of(pieces_text(plain_pieces(d))) == Some(d),
        converted(pieces_text(plain_pieces(d)), homepage) == Some(render(d, homepage)),
{
    let ps = plain_pieces(d);
    let s = pieces_text(ps);
    let t = pieces_tokens(ps);
    let hp = header_pieces(d.header);
    lemma_words_ok();
    assert(all_ok(hp)) by {
        assert forall|k: int| 0 <= k < hp.len() implies piece_ok(#[trigger] hp[k]) by {
        }
    }
    lemma_games_ok(d.games);
    lemma_ok_concat(hp, games_pieces(d.games));
    assert(s.subrange(0, s.len() as int) =~= s);
    lemma_lex_pieces(s, ps);
    assert(lex(s) == Some(t));
    lemma_tokens_len(ps);
    lemma_text_longer(ps);
    assert forall|k: int| 0 <= k < ps.len() implies #[trigger] token_text(s, t, ps, k) by {
        lemma_value_at(ps, k);
    }
    assert(ps.subrange(0, ps.len() as int) =~= ps);
    lemma_placed_split(ps, 0, hp, games_pieces(d.games));
    lemma_placed_at(ps, 0, hp, 0);
    assert(token_text(s, t, ps, 0));
    assert(atom_text(s, t, 0, "clrmamepro".spec_bytes()));
    lemma_placed_at(ps, 0, hp, 1);
    assert(token_text(s, t, ps, 1));
    lemma_placed_at(ps, 0, hp, 2);
    assert(token_text(s, t, ps, 2));
    assert(atom_text(s, t, 2, "name".spec_bytes()));
    lemma_placed_at(ps, 0, hp, 3);
    assert(token_text(s, t, ps, 3));
    assert(atom_text(s, t, 3, d.header.name));
    lemma_placed_at(ps, 0, hp, 4);
    assert(token_text(s, t, ps, 4));
    assert(atom_text(s, t, 4, "description".spec_bytes()));
    lemma_placed_at(ps, 0, hp, 5);
    assert(token_text(s, t, ps, 5));
    assert(atom_text(s, t, 5, d.header.description));
    lemma_placed_at(ps, 0, hp, 6);
    assert(token_text(s, t, ps, 6));
    assert(atom_text(s, t, 6, "category".spec_bytes()));
    lemma_placed_at(ps, 0, hp, 7);
    assert(token_text(s, t, ps, 7));
    assert(atom_text(s, t, 7, d.header.category));
    lemma_placed_at(ps, 0, hp, 8);
    assert(token_text(s, t, ps, 8));
    assert(atom_text(s, t, 8, "version".spec_bytes()));
    lemma_placed_at(ps, 0, hp, 9);
    assert(token_text(s, t, ps, 9));
    assert(atom_text(s, t, 9, d.header.version));
    lemma_placed_at(ps, 0, hp, 10);
    assert(token_text(s, t, ps, 10));
    assert(atom_text(s, t, 10, "author".spec_bytes()));
    lemma_placed_at(ps, 0, hp, 11);
    assert(token_text(s, t, ps, 11));
    assert(atom_text(s, t, 11, d.header.author));
    lemma_placed_at(ps, 0, hp, 12);
    assert(token_text(s, t, ps, 12));
    lemma_parse_header(s, t, d.header);
    lemma_parse_games_at(s, t, ps, 13, d.games);
    let p = parse_run(s, t, t.len());
    assert(13 + games_pieces(d.games).len() == t.len());
    assert(p.1.map_values(|g: GameSpans| game_view_of(s, g, p.2)) =~= d.games);
    assert(catalog_of(s) == Some(d));
}

pub open spec fn token_text(s: Seq<u8>, t: Seq<Token>, ps: Seq<Piece>, k: int) -> bool {
    match ps[k] {
        Piece::Word(w) => t[k] matches Token::Atom { span } && text_of(s, span) == w,
        Piece::Quoted(v) => t[k] matches Token::Atom { span } && text_of(s, span) == v,
        Piece::Open => t[k] == Token::Open,
        Piece::Close => t[k] == Token::Close,
    }
}

} // verus!
