//! The executable codec and the repository surface: parsing whole file
//! contents into records, and serializing records back to text. Each
//! function is proved against the grammar's defining functions.

use vstd::prelude::*;
use vstd::string::StrSliceExecFns;
use vstd::string::StringExecFns;
use crate::grammar::{
    build_gardener, build_seller, build_student, find_nl, find_quote, find_term, gender_label,
    is_wsp, lookup, parse_records, scan_at, scan_pairs, ser_all, ser_entity, skip_wsp, token_len,
    ParsedFile,
};
use crate::models::{Entity, EntityV, Gardener, Gender, Seller, Student};
use crate::text::{parse_u8, str_eq, u8_to_dec};

verus! {

/// The error taxonomy of the repository: a file that cannot be opened,
/// read or written, or text that breaks the record grammar.
#[derive(Clone, Copy, Debug, PartialEq, Eq, Structural)]
pub enum RepoError {
    Io,
    Format,
}

/// The mathematical image of a pair list.
pub open spec fn pairs_view(ps: Seq<(String, String)>) -> Seq<(Seq<char>, Seq<char>)> {
    ps.map_values(|p: (String, String)| (p.0@, p.1@))
}

/// The mathematical image of a record list.
pub open spec fn recs_view(v: Seq<Entity>) -> Seq<EntityV> {
    v.map_values(|e: Entity| e@)
}

/// The mathematical image of a list of text values.
pub open spec fn strs_view(w: Seq<String>) -> Seq<Seq<char>> {
    w.map_values(|x: String| x@)
}

/// Whitespace within a line.
fn char_is_wsp(c: char) -> (r: bool)
    ensures
        r == is_wsp(c),
{
    c == ' ' || c == '\t' || c == '\r' || c == '\n' || c == '\u{b}' || c == '\u{c}'
}

/// Index of the first line break, or the length when there is none.
fn find_nl_e(s: &str) -> (r: usize)
    ensures
        r == find_nl(s@),
        r <= s@.len(),
{
    let n = s.unicode_len();
    let mut i: usize = 0;
    proof {
        assert(s@.skip(0) =~= s@);
    }
    while i < n
        invariant
            n == s@.len(),
            i <= n,
            find_nl(s@) == i + find_nl(s@.skip(i as int)),
        decreases n - i,
    {
        proof {
            assert(s@.skip(i as int)[0] == s@[i as int]);
        }
        if s.get_char(i) == '\n' {
            return i;
        }
        proof {
            assert(s@.skip(i as int).skip(1) =~= s@.skip(i as int + 1));
        }
        i += 1;
    }
    i
}

/// Index of the first double quote, or the length when there is none.
fn find_quote_e(s: &str) -> (r: usize)
    ensures
        r == find_quote(s@),
        r <= s@.len(),
{
    let n = s.unicode_len();
    let mut i: usize = 0;
    proof {
        assert(s@.skip(0) =~= s@);
    }
    while i < n
        invariant
            n == s@.len(),
            i <= n,
            find_quote(s@) == i + find_quote(s@.skip(i as int)),
        decreases n - i,
    {
        proof {
            assert(s@.skip(i as int)[0] == s@[i as int]);
        }
        if s.get_char(i) == '"' {
            return i;
        }
        proof {
            assert(s@.skip(i as int).skip(1) =~= s@.skip(i as int + 1));
        }
        i += 1;
    }
    i
}

/// Number of leading whitespace characters.
fn skip_wsp_e(s: &str) -> (r: usize)
    ensures
        r == skip_wsp(s@),
        r <= s@.len(),
{
    let n = s.unicode_len();
    let mut i: usize = 0;
    proof {
        assert(s@.skip(0) =~= s@);
    }
    while i < n
        invariant
            n == s@.len(),
            i <= n,
            skip_wsp(s@) == i + skip_wsp(s@.skip(i as int)),
        decreases n - i,
    {
        proof {
            assert(s@.skip(i as int)[0] == s@[i as int]);
        }
        if !char_is_wsp(s.get_char(i)) {
            return i;
        }
        proof {
            assert(s@.skip(i as int).skip(1) =~= s@.skip(i as int + 1));
        }
        i += 1;
    }
    i
}

/// Length of the leading run of non-whitespace characters.
fn token_len_e(s: &str) -> (r: usize)
    ensures
        r == token_len(s@),
        r <= s@.len(),
{
    let n = s.unicode_len();
    let mut i: usize = 0;
    proof {
        assert(s@.skip(0) =~= s@);
    }
    while i < n
        invariant
            n == s@.len(),
            i <= n,
            token_len(s@) == i + token_len(s@.skip(i as int)),
        decreases n - i,
    {
        proof {
            assert(s@.skip(i as int)[0] == s@[i as int]);
        }
        if char_is_wsp(s.get_char(i)) {
            return i;
        }
        proof {
            assert(s@.skip(i as int).skip(1) =~= s@.skip(i as int + 1));
        }
        i += 1;
    }
    i
}

/// Index of the first occurrence of the block terminator `};`, or the
/// length when there is none.
fn find_term_e(s: &str) -> (r: usize)
    ensures
        r == find_term(s@),
        r == s@.len() || r + 2 <= s@.len(),
{
    let n = s.unicode_len();
    let mut i: usize = 0;
    proof {
        assert(s@.skip(0) =~= s@);
    }
    while i < n && i + 1 < n
        invariant
            n == s@.len(),
            i <= n,
            find_term(s@) == i + find_term(s@.skip(i as int)),
        decreases n - i,
    {
        proof {
            assert(s@.skip(i as int)[0] == s@[i as int]);
            assert(s@.skip(i as int)[1] == s@[i as int + 1]);
        }
        if s.get_char(i) == '}' && s.get_char(i + 1) == ';' {
            return i;
        }
        proof {
            assert(s@.skip(i as int).skip(1) =~= s@.skip(i as int + 1));
        }
        i += 1;
    }
    proof {
        assert(find_term(s@.skip(i as int)) == s@.len() - i);
    }
    n
}

/// The pairs of a block, scanning from each double quote in turn.
fn scan_pairs_e(b: &str) -> (r: Vec<(String, String)>)
    ensures
        pairs_view(r@) == scan_pairs(b@),
    decreases b@.len(), 1int,
{
    let n = b.unicode_len();
    let p0 = find_quote_e(b);
    if p0 == n {
        let r: Vec<(String, String)> = Vec::new();
        proof {
            assert(pairs_view(r@) =~= scan_pairs(b@));
        }
        return r;
    }
    let tail = b.substring_char(p0, n);
    proof {
        assert(tail@ =~= b@.skip(p0 as int));
    }
    let r = scan_at_e(tail);
    r
}

/// The pairs from a position holding a double quote.
fn scan_at_e(b: &str) -> (r: Vec<(String, String)>)
    requires
        b@.len() >= 1,
    ensures
        pairs_view(r@) == scan_at(b@),
    decreases b@.len(), 0int,
{
    let n = b.unicode_len();
    let rest1 = b.substring_char(1, n);
    proof {
        assert(rest1@ =~= b@.skip(1));
    }
    let krel = find_quote_e(rest1);
    let p1 = 1 + krel;
    if p1 == n {
        let r: Vec<(String, String)> = Vec::new();
        proof {
            assert(pairs_view(r@) =~= scan_at(b@));
        }
        return r;
    }
    let s2 = b.substring_char(p1 + 1, n);
    proof {
        assert(s2@ =~= b@.skip(p1 as int + 1));
    }
    let w1 = skip_wsp_e(s2);
    let a = p1 + 1 + w1;
    if krel == 0 || a == n || b.get_char(a) != ':' {
        let rp = b.substring_char(p1, n);
        proof {
            assert(rp@ =~= b@.skip(p1 as int));
        }
        let r = scan_pairs_e(rp);
        return r;
    }
    let s3 = b.substring_char(a + 1, n);
    proof {
        assert(s3@ =~= b@.skip(a as int + 1));
    }
    let w2 = skip_wsp_e(s3);
    let v0 = a + 1 + w2;
    if v0 == n || b.get_char(v0) != '"' {
        let rp = b.substring_char(p1, n);
        proof {
            assert(rp@ =~= b@.skip(p1 as int));
        }
        let r = scan_pairs_e(rp);
        return r;
    }
    let s4 = b.substring_char(v0 + 1, n);
    proof {
        assert(s4@ =~= b@.skip(v0 as int + 1));
    }
    let vrel = find_quote_e(s4);
    let v1 = v0 + 1 + vrel;
    if v1 == n {
        let rp = b.substring_char(p1, n);
        proof {
            assert(rp@ =~= b@.skip(p1 as int));
        }
        let r = scan_pairs_e(rp);
        return r;
    }
    let key = b.substring_char(1, p1).to_owned();
    let val = b.substring_char(v0 + 1, v1).to_owned();
    let restp = b.substring_char(v1 + 1, n);
    proof {
        assert(restp@ =~= b@.skip(v1 as int + 1));
    }
    let mut rest = scan_pairs_e(restp);
    rest.insert(0, (key, val));
    proof {
        assert(pairs_view(rest@) =~= seq![
            (b@.subrange(1, p1 as int), b@.subrange(v0 as int + 1, v1 as int)),
        ] + scan_pairs(b@.skip(v1 as int + 1)));
    }
    rest
}

/// The value under a key, the last occurrence winning.
fn lookup_e(ps: &Vec<(String, String)>, key: &str) -> (r: Option<String>)
    ensures
        match r {
            Some(v) => lookup(pairs_view(ps@), key@) == Some(v@),
            None => lookup(pairs_view(ps@), key@) is None,
        },
{
    let ghost pv = pairs_view(ps@);
    let mut j = ps.len();
    proof {
        assert(pv.take(ps@.len() as int) =~= pv);
    }
    while j > 0
        invariant
            j <= ps@.len(),
            pv == pairs_view(ps@),
            lookup(pv, key@) == lookup(pv.take(j as int), key@),
        decreases j,
    {
        let j2 = j - 1;
        if str_eq(ps[j2].0.as_str(), key) {
            proof {
                assert(pv.take(j as int).last() == pv[j2 as int]);
            }
            return Some(ps[j2].1.clone());
        }
        proof {
            assert(pv.take(j as int).last() == pv[j2 as int]);
            assert(pv.take(j as int).drop_last() =~= pv.take(j2 as int));
        }
        j = j2;
    }
    proof {
        assert(pv.take(0).len() == 0);
    }
    None
}

/// A student from a block's pairs.
fn build_student_e(ps: &Vec<(String, String)>) -> (r: Option<Student>)
    ensures
        match r {
            Some(st) => build_student(pairs_view(ps@)) == Some(EntityV::Student(st@)),
            None => build_student(pairs_view(ps@)) is None,
        },
{
    let f = match lookup_e(ps, "firstName") {
        Some(v) => v,
        None => {
            return None;
        },
    };
    let l = match lookup_e(ps, "lastName") {
        Some(v) => v,
        None => {
            return None;
        },
    };
    let id = match lookup_e(ps, "studentId") {
        Some(v) => v,
        None => {
            return None;
        },
    };
    let gender = match lookup_e(ps, "gender") {
        Some(g) => Gender::from_str(g.as_str()),
        None => Gender::Other,
    };
    let course: u8 = match lookup_e(ps, "course") {
        Some(c) => match parse_u8(c.as_str()) {
            Some(v) => v,
            None => 1,
        },
        None => 1,
    };
    let dorm = lookup_e(ps, "dorm");
    Some(
        Student {
            first_name: f,
            last_name: l,
            gender,
            student_id: id,
            course,
            dormitory_room: dorm,
        },
    )
}

/// A seller from a block's pairs.
fn build_seller_e(ps: &Vec<(String, String)>) -> (r: Option<Seller>)
    ensures
        match r {
            Some(s) => build_seller(pairs_view(ps@)) == Some(EntityV::Seller(s@)),
            None => build_seller(pairs_view(ps@)) is None,
        },
{
    let f = match lookup_e(ps, "firstName") {
        Some(v) => v,
        None => {
            return None;
        },
    };
    let l = match lookup_e(ps, "lastName") {
        Some(v) => v,
        None => {
            return None;
        },
    };
    let gender = match lookup_e(ps, "gender") {
        Some(g) => Gender::from_str(g.as_str()),
        None => Gender::Other,
    };
    let shop = lookup_e(ps, "shop");
    Some(Seller { first_name: f, last_name: l, gender, shop })
}

/// A gardener from a block's pairs.
fn build_gardener_e(ps: &Vec<(String, String)>) -> (r: Option<Gardener>)
    ensures
        match r {
            Some(g) => build_gardener(pairs_view(ps@)) == Some(EntityV::Gardener(g@)),
            None => build_gardener(pairs_view(ps@)) is None,
        },
{
    let f = match lookup_e(ps, "firstName") {
        Some(v) => v,
        None => {
            return None;
        },
    };
    let l = match lookup_e(ps, "lastName") {
        Some(v) => v,
        None => {
            return None;
        },
    };
    let gender = match lookup_e(ps, "gender") {
        Some(g) => Gender::from_str(g.as_str()),
        None => Gender::Other,
    };
    let years: Option<u8> = match lookup_e(ps, "experience") {
        Some(e) => parse_u8(e.as_str()),
        None => None,
    };
    Some(Gardener { first_name: f, last_name: l, gender, experience_years: years })
}

/// Parsing from the head of the remaining text: one header and block per
/// step, blank lines skipped.
#[verifier::rlimit(100)]
#[verifier::spinoff_prover]
fn parse_from(text: &str) -> (r: Result<(Vec<Entity>, Vec<String>), RepoError>)
    ensures
        match r {
            Ok(out) => parse_records(text@) == Some(
                ParsedFile { recs: recs_view(out.0@), skipped: strs_view(out.1@) },
            ),
            Err(er) => parse_records(text@) is None && er == RepoError::Format,
        },
    decreases text@.len(),
{
    let ghost s = text@;
    let n = text.unicode_len();
    if n == 0 {
        let out: (Vec<Entity>, Vec<String>) = (Vec::new(), Vec::new());
        proof {
            assert(recs_view(out.0@) =~= Seq::<EntityV>::empty());
            assert(strs_view(out.1@) =~= Seq::<Seq<char>>::empty());
        }
        return Ok(out);
    }
    let e = find_nl_e(text);
    proof {
        crate::grammar::lemma_find_nl_bounds(s);
    }
    let line = text.substring_char(0, e);
    proof {
        assert(line@ =~= s.take(e as int));
    }
    let rest = if e < n {
        text.substring_char(e + 1, n)
    } else {
        text.substring_char(n, n)
    };
    proof {
        if e < n {
            assert(rest@ =~= s.skip(e as int + 1));
        } else {
            assert(rest@ =~= Seq::<char>::empty());
        }
    }
    let llen = line.unicode_len();
    let t0 = skip_wsp_e(line);
    proof {
        crate::grammar::lemma_skip_wsp_bounds(line@);
    }
    if t0 == llen {
        let r = parse_from(rest);
        proof {
            assert(parse_records(s) == parse_records(rest@));
        }
        return r;
    }
    let line_tail = text.substring_char(t0, e);
    proof {
        assert(line_tail@ =~= line@.skip(t0 as int));
    }
    let tl = token_len_e(line_tail);
    proof {
        crate::grammar::lemma_token_len_bounds(line_tail@);
    }
    let kind = text.substring_char(t0, t0 + tl);
    proof {
        assert(kind@ =~= line@.subrange(t0 as int, t0 + token_len(line@.skip(t0 as int))));
    }
    let rlen = rest.unicode_len();
    let p = find_term_e(rest);
    proof {
        crate::grammar::lemma_find_term_bounds(rest@);
    }
    let q = if p == rlen {
        rlen
    } else {
        let after_term = rest.substring_char(p + 2, rlen);
        proof {
            assert(after_term@ =~= rest@.skip(p as int + 2));
        }
        let e2 = find_nl_e(after_term);
        proof {
            crate::grammar::lemma_find_nl_bounds(after_term@);
        }
        p + 2 + e2
    };
    let block = rest.substring_char(0, q);
    proof {
        assert(block@ =~= rest@.take(q as int));
    }
    let after = if q < rlen {
        rest.substring_char(q + 1, rlen)
    } else {
        rest.substring_char(rlen, rlen)
    };
    proof {
        if q < rlen {
            assert(after@ =~= rest@.skip(q as int + 1));
        } else {
            assert(after@ =~= Seq::<char>::empty());
        }
    }
    let pairs = scan_pairs_e(block);
    let ghost ps = scan_pairs(block@);
    if str_eq(kind, "Student") {
        match build_student_e(&pairs) {
            None => {
                proof {
                    assert(parse_records(s) is None);
                }
                Err(RepoError::Format)
            },
            Some(st) => match parse_from(after) {
                Err(er) => Err(er),
                Ok((mut v, w)) => {
                    let ghost oldv = v@;
                    v.insert(0, Entity::Student(st));
                    proof {
                        assert(recs_view(v@) =~= seq![EntityV::Student(st@)] + recs_view(oldv));
                    }
                    Ok((v, w))
                },
            },
        }
    } else if str_eq(kind, "Seller") {
        match build_seller_e(&pairs) {
            None => {
                proof {
                    assert(parse_records(s) is None);
                }
                Err(RepoError::Format)
            },
            Some(sl) => match parse_from(after) {
                Err(er) => Err(er),
                Ok((mut v, w)) => {
                    let ghost oldv = v@;
                    v.insert(0, Entity::Seller(sl));
                    proof {
                        assert(recs_view(v@) =~= seq![EntityV::Seller(sl@)] + recs_view(oldv));
                    }
                    Ok((v, w))
                },
            },
        }
    } else if str_eq(kind, "Gardener") {
        match build_gardener_e(&pairs) {
            None => {
                proof {
                    assert(parse_records(s) is None);
                }
                Err(RepoError::Format)
            },
            Some(g) => match parse_from(after) {
                Err(er) => Err(er),
                Ok((mut v, w)) => {
                    let ghost oldv = v@;
                    v.insert(0, Entity::Gardener(g));
                    proof {
                        assert(recs_view(v@) =~= seq![EntityV::Gardener(g@)] + recs_view(oldv));
                    }
                    Ok((v, w))
                },
            },
        }
    } else {
        match parse_from(after) {
            Err(er) => Err(er),
            Ok((v, mut w)) => {
                let ghost oldw = w@;
                let tag = kind.to_owned();
                w.insert(0, tag);
                proof {
                    assert(strs_view(w@) =~= seq![kind@] + strs_view(oldw));
                }
                Ok((v, w))
            },
        }
    }
}

/// Appending one `"key": "value"` pair line, continued with a comma.
fn push_mid(out: &mut String, k: &str, v: &str)
    ensures
        final(out)@ == old(out)@ + crate::grammar::ser_mid(k@, v@),
{
    out.append("\"");
    out.append(k);
    out.append("\": \"");
    out.append(v);
    out.append("\",\n");
    proof {
        reveal_strlit("\"");
        reveal_strlit("\": \"");
        reveal_strlit("\",\n");
        assert(out@ =~= old(out)@ + crate::grammar::ser_mid(k@, v@));
    }
}

/// Appending the final pair line of a block, carrying the terminator.
fn push_last(out: &mut String, k: &str, v: &str)
    ensures
        final(out)@ == old(out)@ + crate::grammar::ser_last(k@, v@),
{
    out.append("\"");
    out.append(k);
    out.append("\": \"");
    out.append(v);
    out.append("\"};\n");
    proof {
        reveal_strlit("\"");
        reveal_strlit("\": \"");
        reveal_strlit("\"};\n");
        assert(out@ =~= old(out)@ + crate::grammar::ser_last(k@, v@));
    }
}

/// The label a gender is written with.
fn gender_str(g: &Gender) -> (r: &'static str)
    ensures
        r@ == gender_label(*g),
{
    match g {
        Gender::Male => "Male",
        Gender::Female => "Female",
        Gender::Other => "Other",
    }
}

/// Appending the header line and the opening of the block.
fn push_open(out: &mut String, kind: &str, first: &str, last: &str)
    ensures
        final(out)@ == old(out)@ + crate::grammar::ser_header(kind@, first@, last@) + seq![
            '{',
            ' ',
        ],
{
    out.append(kind);
    out.append(" ");
    out.append(first);
    out.append(last);
    out.append("\n");
    out.append("{ ");
    proof {
        reveal_strlit(" ");
        reveal_strlit("\n");
        reveal_strlit("{ ");
        assert(out@ =~= old(out)@ + crate::grammar::ser_header(kind@, first@, last@) + seq![
            '{',
            ' ',
        ]);
    }
}

/// Appending the lone terminator line.
fn push_close(out: &mut String)
    ensures
        final(out)@ == old(out)@ + crate::grammar::ser_close(),
{
    out.append("};\n");
    proof {
        reveal_strlit("};\n");
        assert(out@ =~= old(out)@ + crate::grammar::ser_close());
    }
}

/// The file-backed repository: it holds no state of its own; every
/// operation works on whole file contents handed to it as text.
pub struct FileRepository;

impl FileRepository {
    pub fn new() -> (r: Self)
        ensures
            r == (FileRepository {  }),
    {
        FileRepository
    }

    /// Parsing whole file contents into records, in file order, together
    /// with the unknown kind tags that were skipped along the way. The
    /// result is exactly what `parse_records` assigns to the text; the
    /// error is the format error, raised exactly when a required field is
    /// missing from a block of known kind.
    pub fn parse_all(&self, text: &str) -> (r: Result<(Vec<Entity>, Vec<String>), RepoError>)
        ensures
            match r {
                Ok(out) => parse_records(text@) == Some(
                    ParsedFile { recs: recs_view(out.0@), skipped: strs_view(out.1@) },
                ),
                Err(er) => parse_records(text@) is None && er == RepoError::Format,
            },
    {
        parse_from(text)
    }

    /// The text one record serializes to: header line, then the block of
    /// `"key": "value"` pairs in the record's fixed field order.
    pub fn serialize_record(&self, e: &Entity) -> (r: String)
        ensures
            r@ == ser_entity(e@),
    {
        let mut out = String::new();
        match e {
            Entity::Student(st) => {
                push_open(&mut out, "Student", st.first_name.as_str(), st.last_name.as_str());
                push_mid(&mut out, "firstName", st.first_name.as_str());
                push_mid(&mut out, "lastName", st.last_name.as_str());
                push_mid(&mut out, "studentId", st.student_id.as_str());
                push_mid(&mut out, "gender", gender_str(&st.gender));
                let course = u8_to_dec(st.course);
                push_mid(&mut out, "course", course.as_str());
                match &st.dormitory_room {
                    Some(d) => push_last(&mut out, "dorm", d.as_str()),
                    None => push_close(&mut out),
                }
            },
            Entity::Seller(sl) => {
                push_open(&mut out, "Seller", sl.first_name.as_str(), sl.last_name.as_str());
                push_mid(&mut out, "firstName", sl.first_name.as_str());
                push_mid(&mut out, "lastName", sl.last_name.as_str());
                push_mid(&mut out, "gender", gender_str(&sl.gender));
                match &sl.shop {
                    Some(sh) => push_last(&mut out, "shop", sh.as_str()),
                    None => push_close(&mut out),
                }
            },
            Entity::Gardener(g) => {
                push_open(&mut out, "Gardener", g.first_name.as_str(), g.last_name.as_str());
                push_mid(&mut out, "firstName", g.first_name.as_str());
                push_mid(&mut out, "lastName", g.last_name.as_str());
                push_mid(&mut out, "gender", gender_str(&g.gender));
                match &g.experience_years {
                    Some(y) => {
                        let ytext = u8_to_dec(*y);
                        push_last(&mut out, "experience", ytext.as_str());
                    },
                    None => push_close(&mut out),
                }
            },
        }
        proof {
            assert(out@ =~= ser_entity(e@));
        }
        out
    }

    /// The text a whole sequence of records serializes to, in order.
    pub fn serialize_all(&self, all: &[Entity]) -> (r: String)
        ensures
            r@ == ser_all(recs_view(all@)),
    {
        let ghost vs = recs_view(all@);
        let mut out = String::new();
        let mut i: usize = 0;
        proof {
            assert(vs.skip(0) =~= vs);
        }
        while i < all.len()
            invariant
                i <= all@.len(),
                vs == recs_view(all@),
                out@ + ser_all(vs.skip(i as int)) == ser_all(vs),
            decreases all@.len() - i,
        {
            let one = self.serialize_record(&all[i]);
            out.append(one.as_str());
            proof {
                assert(vs.skip(i as int)[0] == vs[i as int]);
                assert(vs.skip(i as int).skip(1) =~= vs.skip(i as int + 1));
                assert(out@ + ser_all(vs.skip(i as int + 1)) =~= ser_all(vs));
            }
            i += 1;
        }
        proof {
            assert(ser_all(vs.skip(all@.len() as int)) =~= Seq::<char>::empty());
            assert(out@ =~= ser_all(vs));
        }
        out
    }
}

} // verus!
