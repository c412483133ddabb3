//! The on-disk grammar, as mathematics.
//!
//! A record occupies a header line — the kind tag followed by the first and
//! last name, never parsed back out — and a brace-delimited block of
//! `"key": "value"` pairs terminated by the first line that contains `};`.
//! These functions define, over character sequences, what a file parses to
//! and what a record serializes to; the executable codec is proved against
//! them.

use vstd::prelude::*;
use crate::models::{EntityV, Gender, GardenerV, SellerV, StudentV, gender_of_text};
use crate::text::{dec_u8, parse_u8_opt};

verus! {

/// Whitespace within a line: the ASCII separators the header trimming and
/// the pair grammar accept between tokens.
pub open spec fn is_wsp(c: char) -> bool {
    c == ' ' || c == '\t' || c == '\r' || c == '\n' || c == '\u{b}' || c == '\u{c}'
}

/// Index of the first line break, or the length when there is none.
pub open spec fn find_nl(s: Seq<char>) -> int
    decreases s.len(),
{
    if s.len() == 0 {
        0
    } else if s[0] == '\n' {
        0
    } else {
        1 + find_nl(s.skip(1))
    }
}

/// Index of the first double quote, or the length when there is none.
pub open spec fn find_quote(s: Seq<char>) -> int
    decreases s.len(),
{
    if s.len() == 0 {
        0
    } else if s[0] == '"' {
        0
    } else {
        1 + find_quote(s.skip(1))
    }
}

/// Number of leading whitespace characters.
pub open spec fn skip_wsp(s: Seq<char>) -> int
    decreases s.len(),
{
    if s.len() > 0 && is_wsp(s[0]) {
        1 + skip_wsp(s.skip(1))
    } else {
        0
    }
}

/// Length of the leading run of non-whitespace characters.
pub open spec fn token_len(s: Seq<char>) -> int
    decreases s.len(),
{
    if s.len() > 0 && !is_wsp(s[0]) {
        1 + token_len(s.skip(1))
    } else {
        0
    }
}

/// Index of the first occurrence of the block terminator `};`, or the
/// length when there is none.
pub open spec fn find_term(s: Seq<char>) -> int
    decreases s.len(),
{
    if s.len() < 2 {
        s.len() as int
    } else if s[0] == '}' && s[1] == ';' {
        0
    } else {
        1 + find_term(s.skip(1))
    }
}

/// The first line break never lies beyond the end.
pub broadcast proof fn lemma_find_nl_bounds(s: Seq<char>)
    ensures
        0 <= #[trigger] find_nl(s) <= s.len(),
    decreases s.len(),
{
    if s.len() > 0 && s[0] != '\n' {
        lemma_find_nl_bounds(s.skip(1));
    }
}

/// The first double quote never lies beyond the end.
pub broadcast proof fn lemma_find_quote_bounds(s: Seq<char>)
    ensures
        0 <= #[trigger] find_quote(s) <= s.len(),
    decreases s.len(),
{
    if s.len() > 0 && s[0] != '"' {
        lemma_find_quote_bounds(s.skip(1));
    }
}

/// A leading whitespace run never runs beyond the end.
pub broadcast proof fn lemma_skip_wsp_bounds(s: Seq<char>)
    ensures
        0 <= #[trigger] skip_wsp(s) <= s.len(),
    decreases s.len(),
{
    if s.len() > 0 && is_wsp(s[0]) {
        lemma_skip_wsp_bounds(s.skip(1));
    }
}

/// A leading token never runs beyond the end.
pub broadcast proof fn lemma_token_len_bounds(s: Seq<char>)
    ensures
        0 <= #[trigger] token_len(s) <= s.len(),
    decreases s.len(),
{
    if s.len() > 0 && !is_wsp(s[0]) {
        lemma_token_len_bounds(s.skip(1));
    }
}

/// The first block terminator never lies beyond the end.
pub broadcast proof fn lemma_find_term_bounds(s: Seq<char>)
    ensures
        0 <= #[trigger] find_term(s) <= s.len(),
    decreases s.len(),
{
    if s.len() >= 2 && !(s[0] == '}' && s[1] == ';') {
        lemma_find_term_bounds(s.skip(1));
    }
}

/// The `"key": "value"` pairs a block yields, in order of occurrence:
/// scanning starts at each double quote in turn.
pub open spec fn scan_pairs(b: Seq<char>) -> Seq<(Seq<char>, Seq<char>)>
    decreases b.len(), 1int,
    via scan_pairs_dec
{
    let p0 = find_quote(b);
    if p0 >= b.len() {
        Seq::empty()
    } else {
        scan_at(b.skip(p0))
    }
}

/// The pairs yielded from a position holding a double quote: a non-empty
/// key up to the next quote, optional whitespace, a colon, optional
/// whitespace, then a quoted value. On a mismatch the closing key quote is
/// retried as an opening one.
pub open spec fn scan_at(b: Seq<char>) -> Seq<(Seq<char>, Seq<char>)>
    decreases b.len(), 0int,
    via scan_at_dec
{
    let krel = find_quote(b.skip(1));
    let p1 = 1 + krel;
    if p1 >= b.len() {
        Seq::empty()
    } else {
        let a = p1 + 1 + skip_wsp(b.skip(p1 + 1));
        if krel == 0 || a >= b.len() || b[a] != ':' {
            scan_pairs(b.skip(p1))
        } else {
            let v0 = a + 1 + skip_wsp(b.skip(a + 1));
            if v0 >= b.len() || b[v0] != '"' {
                scan_pairs(b.skip(p1))
            } else {
                let vrel = find_quote(b.skip(v0 + 1));
                let v1 = v0 + 1 + vrel;
                if v1 >= b.len() {
                    scan_pairs(b.skip(p1))
                } else {
                    seq![(b.subrange(1, p1), b.subrange(v0 + 1, v1))] + scan_pairs(
                        b.skip(v1 + 1),
                    )
                }
            }
        }
    }
}

#[via_fn]
proof fn scan_pairs_dec(b: Seq<char>) {
    lemma_find_quote_bounds(b);
}

#[via_fn]
proof fn scan_at_dec(b: Seq<char>) {
    lemma_find_quote_bounds(b.skip(1));
    let krel = find_quote(b.skip(1));
    let p1 = 1 + krel;
    if p1 < b.len() {
        lemma_skip_wsp_bounds(b.skip(p1 + 1));
        let a = p1 + 1 + skip_wsp(b.skip(p1 + 1));
        if !(krel == 0 || a >= b.len() || b[a] != ':') {
            lemma_skip_wsp_bounds(b.skip(a + 1));
            let v0 = a + 1 + skip_wsp(b.skip(a + 1));
            if !(v0 >= b.len() || b[v0] != '"') {
                lemma_find_quote_bounds(b.skip(v0 + 1));
            }
        }
    }
}

/// The value under a key, the last occurrence winning; `None` when the key
/// never occurs.
pub open spec fn lookup(ps: Seq<(Seq<char>, Seq<char>)>, k: Seq<char>) -> Option<Seq<char>>
    decreases ps.len(),
{
    if ps.len() == 0 {
        None
    } else if ps.last().0 == k {
        Some(ps.last().1)
    } else {
        lookup(ps.drop_last(), k)
    }
}

/// The gender a block's pairs give a record: absent or unrecognized text
/// maps to `Other`.
pub open spec fn gender_of_pairs(ps: Seq<(Seq<char>, Seq<char>)>) -> Gender {
    match lookup(ps, "gender"@) {
        Some(g) => gender_of_text(g),
        None => Gender::Other,
    }
}

/// A student from a block's pairs: the names and the student id are
/// required; a missing or unreadable course defaults to one.
pub open spec fn build_student(ps: Seq<(Seq<char>, Seq<char>)>) -> Option<EntityV> {
    match (lookup(ps, "firstName"@), lookup(ps, "lastName"@), lookup(ps, "studentId"@)) {
        (Some(f), Some(l), Some(id)) => Some(
            EntityV::Student(
                StudentV {
                    first_name: f,
                    last_name: l,
                    gender: gender_of_pairs(ps),
                    student_id: id,
                    course: match lookup(ps, "course"@) {
                        Some(c) => match parse_u8_opt(c) {
                            Some(v) => v,
                            None => 1u8,
                        },
                        None => 1u8,
                    },
                    dormitory_room: lookup(ps, "dorm"@),
                },
            ),
        ),
        _ => None,
    }
}

/// A seller from a block's pairs: the names are required.
pub open spec fn build_seller(ps: Seq<(Seq<char>, Seq<char>)>) -> Option<EntityV> {
    match (lookup(ps, "firstName"@), lookup(ps, "lastName"@)) {
        (Some(f), Some(l)) => Some(
            EntityV::Seller(
                SellerV {
                    first_name: f,
                    last_name: l,
                    gender: gender_of_pairs(ps),
                    shop: lookup(ps, "shop"@),
                },
            ),
        ),
        _ => None,
    }
}

/// A gardener from a block's pairs: the names are required; unreadable
/// experience text is treated as absent.
pub open spec fn build_gardener(ps: Seq<(Seq<char>, Seq<char>)>) -> Option<EntityV> {
    match (lookup(ps, "firstName"@), lookup(ps, "lastName"@)) {
        (Some(f), Some(l)) => Some(
            EntityV::Gardener(
                GardenerV {
                    first_name: f,
                    last_name: l,
                    gender: gender_of_pairs(ps),
                    experience_years: match lookup(ps, "experience"@) {
                        Some(e) => parse_u8_opt(e),
                        None => None,
                    },
                },
            ),
        ),
        _ => None,
    }
}

/// What a whole file parses to: the records in order, and the unknown kind
/// tags that were skipped. `None` is the format error: a required field
/// missing aborts the whole read.
pub ghost struct ParsedFile {
    pub recs: Seq<EntityV>,
    pub skipped: Seq<Seq<char>>,
}

/// A parse outcome with one more record at the front, the error carried
/// through.
pub open spec fn with_rec(r: Option<EntityV>, tail: Option<ParsedFile>) -> Option<ParsedFile> {
    match (r, tail) {
        (Some(e), Some(pf)) => Some(ParsedFile { recs: seq![e] + pf.recs, skipped: pf.skipped }),
        _ => None,
    }
}

/// A parse outcome with one more skipped kind tag at the front, the error
/// carried through.
pub open spec fn with_skip(k: Seq<char>, tail: Option<ParsedFile>) -> Option<ParsedFile> {
    match tail {
        Some(pf) => Some(ParsedFile { recs: pf.recs, skipped: seq![k] + pf.skipped }),
        None => None,
    }
}

/// Parsing a stream of records. Blank lines between records are skipped; a
/// non-blank line is a header whose first whitespace-delimited token is the
/// kind tag; the following lines up to the first one containing `};` form
/// the block. An unknown kind tag skips the record; a known one must yield
/// its required fields or the whole parse fails.
pub open spec fn parse_records(s: Seq<char>) -> Option<ParsedFile>
    decreases s.len(),
    via parse_records_dec
{
    if s.len() == 0 {
        Some(ParsedFile { recs: Seq::empty(), skipped: Seq::empty() })
    } else {
        let e = find_nl(s);
        let line = s.take(e);
        let rest = if e < s.len() {
            s.skip(e + 1)
        } else {
            Seq::<char>::empty()
        };
        if skip_wsp(line) == line.len() {
            parse_records(rest)
        } else {
            let t0 = skip_wsp(line);
            let kind = line.subrange(t0, t0 + token_len(line.skip(t0)));
            let p = find_term(rest);
            let q = if p == rest.len() {
                rest.len() as int
            } else {
                p + 2 + find_nl(rest.skip(p + 2))
            };
            let block = rest.take(q);
            let after = if q < rest.len() {
                rest.skip(q + 1)
            } else {
                Seq::<char>::empty()
            };
            let ps = scan_pairs(block);
            if kind == "Student"@ {
                with_rec(build_student(ps), parse_records(after))
            } else if kind == "Seller"@ {
                with_rec(build_seller(ps), parse_records(after))
            } else if kind == "Gardener"@ {
                with_rec(build_gardener(ps), parse_records(after))
            } else {
                with_skip(kind, parse_records(after))
            }
        }
    }
}

#[via_fn]
proof fn parse_records_dec(s: Seq<char>) {
    if s.len() != 0 {
        lemma_find_nl_bounds(s);
        let e = find_nl(s);
        let line = s.take(e);
        lemma_skip_wsp_bounds(line);
        let t0 = skip_wsp(line);
        lemma_token_len_bounds(line.skip(t0));
        let rest = if e < s.len() {
            s.skip(e + 1)
        } else {
            Seq::<char>::empty()
        };
        lemma_find_term_bounds(rest);
        let p = find_term(rest);
        if p < rest.len() {
            lemma_find_nl_bounds(rest.skip(p + 2));
        }
    }
}

/// The label a gender is written with.
pub open spec fn gender_label(g: Gender) -> Seq<char> {
    match g {
        Gender::Male => "Male"@,
        Gender::Female => "Female"@,
        Gender::Other => "Other"@,
    }
}

/// One `"key": "value"` pair, quotes included.
pub open spec fn ser_pair(k: Seq<char>, v: Seq<char>) -> Seq<char> {
    seq!['"'] + k + seq!['"', ':', ' ', '"'] + v + seq!['"']
}

/// A pair followed by a comma, on a line of its own.
pub open spec fn ser_mid(k: Seq<char>, v: Seq<char>) -> Seq<char> {
    ser_pair(k, v) + seq![',', '\n']
}

/// The final pair of a block, carrying the terminator.
pub open spec fn ser_last(k: Seq<char>, v: Seq<char>) -> Seq<char> {
    ser_pair(k, v) + seq!['}', ';', '\n']
}

/// The lone terminator line closing a block with no optional field.
pub open spec fn ser_close() -> Seq<char> {
    seq!['}', ';', '\n']
}

/// The header line: the kind tag, a space, and the names run together.
/// The name portion is decoration — it is written for symmetry but never
/// parsed back out.
pub open spec fn ser_header(kind: Seq<char>, first: Seq<char>, last: Seq<char>) -> Seq<char> {
    kind + seq![' '] + first + last + seq!['\n']
}

/// The text one record serializes to.
pub open spec fn ser_entity(e: EntityV) -> Seq<char> {
    match e {
        EntityV::Student(s) => ser_header("Student"@, s.first_name, s.last_name) + seq!['{', ' ']
            + ser_mid("firstName"@, s.first_name) + ser_mid("lastName"@, s.last_name) + ser_mid(
            "studentId"@,
            s.student_id,
        ) + ser_mid("gender"@, gender_label(s.gender)) + ser_mid("course"@, dec_u8(s.course)) + (
        match s.dormitory_room {
            Some(d) => ser_last("dorm"@, d),
            None => ser_close(),
        }),
        EntityV::Seller(s) => ser_header("Seller"@, s.first_name, s.last_name) + seq!['{', ' ']
            + ser_mid("firstName"@, s.first_name) + ser_mid("lastName"@, s.last_name) + ser_mid(
            "gender"@,
            gender_label(s.gender),
        ) + (match s.shop {
            Some(sh) => ser_last("shop"@, sh),
            None => ser_close(),
        }),
        EntityV::Gardener(g) => ser_header("Gardener"@, g.first_name, g.last_name) + seq!['{', ' ']
            + ser_mid("firstName"@, g.first_name) + ser_mid("lastName"@, g.last_name) + ser_mid(
            "gender"@,
            gender_label(g.gender),
        ) + (match g.experience_years {
            Some(y) => ser_last("experience"@, dec_u8(y)),
            None => ser_close(),
        }),
    }
}

/// The text a whole sequence of records serializes to, in order.
pub open spec fn ser_all(rs: Seq<EntityV>) -> Seq<char>
    decreases rs.len(),
{
    if rs.len() == 0 {
        Seq::empty()
    } else {
        ser_entity(rs[0]) + ser_all(rs.skip(1))
    }
}

/// Free of double quotes and line breaks.
pub open spec fn qn_free(v: Seq<char>) -> bool {
    forall|i: int| 0 <= i < v.len() ==> v[i] != '"' && v[i] != '\n'
}

/// Free of the block terminator `};`.
pub open spec fn term_free(v: Seq<char>) -> bool {
    forall|i: int| 0 <= i < v.len() - 1 ==> !(#[trigger] v[i] == '}' && v[i + 1] == ';')
}

/// Text that survives the format unchanged: no double quote, no line
/// break, and no occurrence of the block terminator `};`.
pub open spec fn text_clean(v: Seq<char>) -> bool {
    qn_free(v) && term_free(v)
}

/// A record whose text fields all survive the format unchanged.
pub open spec fn entity_clean(e: EntityV) -> bool {
    match e {
        EntityV::Student(s) => text_clean(s.first_name) && text_clean(s.last_name) && text_clean(
            s.student_id,
        ) && (match s.dormitory_room {
            Some(d) => text_clean(d),
            None => true,
        }),
        EntityV::Seller(s) => text_clean(s.first_name) && text_clean(s.last_name) && (
        match s.shop {
            Some(sh) => text_clean(sh),
            None => true,
        }),
        EntityV::Gardener(g) => text_clean(g.first_name) && text_clean(g.last_name),
    }
}

} // verus!
