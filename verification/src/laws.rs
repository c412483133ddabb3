//! The laws of the codec: what parsing makes of serialized text.
//!
//! The central results are `lemma_round_trip` — parsing the text one clean
//! record serializes to yields exactly that record — and
//! `lemma_parse_serialize_all` — serializing any number of clean records
//! and parsing the result yields exactly those records, in order.

use vstd::prelude::*;
use crate::grammar::{
    build_gardener, build_seller, build_student, find_nl, find_quote, find_term, gender_label,
    is_wsp, lookup, parse_records, qn_free, scan_at, scan_pairs, ser_all, ser_entity, ser_mid,
    ser_pair, skip_wsp, term_free, token_len, with_rec, with_skip, entity_clean, ParsedFile,
};
use crate::models::{EntityV, Gender, GardenerV, SellerV, StudentV, gender_of_text};
use crate::text::{dec_u8, digit_val, lower_seq, lemma_dec_u8_round_trip};

verus! {

/// A line break is found past any break-free prefix.
proof fn lemma_find_nl_prefix(a: Seq<char>, b: Seq<char>)
    requires
        forall|i: int| 0 <= i < a.len() ==> a[i] != '\n',
    ensures
        find_nl(a + b) == a.len() + find_nl(b),
    decreases a.len(),
{
    if a.len() == 0 {
        assert(a + b =~= b);
    } else {
        assert((a + b)[0] == a[0]);
        assert((a + b).len() > 0);
        assert((a + b).skip(1) =~= a.skip(1) + b);
        lemma_find_nl_prefix(a.skip(1), b);
    }
}

/// A double quote is found past any quote-free prefix.
proof fn lemma_find_quote_prefix(a: Seq<char>, b: Seq<char>)
    requires
        forall|i: int| 0 <= i < a.len() ==> a[i] != '"',
    ensures
        find_quote(a + b) == a.len() + find_quote(b),
    decreases a.len(),
{
    if a.len() == 0 {
        assert(a + b =~= b);
    } else {
        assert((a + b)[0] == a[0]);
        assert((a + b).skip(1) =~= a.skip(1) + b);
        lemma_find_quote_prefix(a.skip(1), b);
    }
}

/// A token ends exactly where a whitespace-free prefix does.
proof fn lemma_token_len_prefix(a: Seq<char>, b: Seq<char>)
    requires
        forall|i: int| 0 <= i < a.len() ==> !is_wsp(a[i]),
    ensures
        token_len(a + b) == a.len() + token_len(b),
    decreases a.len(),
{
    if a.len() == 0 {
        assert(a + b =~= b);
    } else {
        assert((a + b)[0] == a[0]);
        assert((a + b).skip(1) =~= a.skip(1) + b);
        lemma_token_len_prefix(a.skip(1), b);
    }
}

/// The block terminator is found past any terminator-free prefix that does
/// not form one across the junction either.
proof fn lemma_find_term_prefix(a: Seq<char>, b: Seq<char>)
    requires
        term_free(a),
        !(a.len() > 0 && b.len() > 0 && a.last() == '}' && b[0] == ';'),
    ensures
        find_term(a + b) == a.len() + find_term(b),
    decreases a.len(),
{
    if a.len() == 0 {
        assert(a + b =~= b);
    } else {
        let t = a + b;
        assert(t[0] == a[0]);
        if t.len() >= 2 {
            assert(t[1] == (if a.len() >= 2 {
                a[1]
            } else {
                b[0]
            }));
            assert(!(t[0] == '}' && t[1] == ';'));
            assert(t.skip(1) =~= a.skip(1) + b);
            assert(a.skip(1).len() > 0 ==> a.skip(1).last() == a.last());
            lemma_find_term_prefix(a.skip(1), b);
        } else {
            assert(a.len() == 1 && b.len() == 0);
            assert(find_term(t) == 1);
            assert(find_term(b) == 0);
        }
    }
}

/// Terminator-freedom is preserved by concatenation when none forms across
/// the junction.
proof fn lemma_term_free_concat(a: Seq<char>, b: Seq<char>)
    requires
        term_free(a),
        term_free(b),
        !(a.len() > 0 && b.len() > 0 && a.last() == '}' && b[0] == ';'),
    ensures
        term_free(a + b),
{
    let t = a + b;
    assert forall|i: int| 0 <= i < t.len() - 1 implies !(#[trigger] t[i] == '}' && t[i + 1]
        == ';') by {
        if i < a.len() - 1 {
            assert(t[i] == a[i] && t[i + 1] == a[i + 1]);
        } else if i == a.len() - 1 {
            assert(t[i] == a.last() && t[i + 1] == b[0]);
        } else {
            assert(t[i] == b[i - a.len()] && t[i + 1] == b[i + 1 - a.len()]);
        }
    }
}

/// Scanning passes over leading quote-free text.
proof fn lemma_scan_junk(c: Seq<char>, b: Seq<char>)
    requires
        forall|i: int| 0 <= i < c.len() ==> c[i] != '"',
    ensures
        scan_pairs(c + b) == scan_pairs(b),
{
    let t = c + b;
    lemma_find_quote_prefix(c, b);
    crate::grammar::lemma_find_quote_bounds(b);
    let p0 = find_quote(t);
    let q0 = find_quote(b);
    if q0 >= b.len() {
        assert(p0 >= t.len());
    } else {
        assert(t.skip(p0) =~= b.skip(q0));
    }
}

/// Scanning one serialized pair yields exactly that pair and goes on after
/// it.
proof fn lemma_scan_one(k: Seq<char>, v: Seq<char>, rest: Seq<char>)
    requires
        k.len() > 0,
        qn_free(k),
        qn_free(v),
    ensures
        scan_pairs(ser_pair(k, v) + rest) == seq![(k, v)] + scan_pairs(rest),
{
    let b = ser_pair(k, v) + rest;
    let colon = seq!['"', ':', ' ', '"'];
    assert(b =~= seq!['"'] + (k + (colon + (v + (seq!['"'] + rest)))));
    assert(b[0] == '"');
    assert(find_quote(b) == 0);
    assert(b.skip(0) =~= b);
    assert(scan_pairs(b) == scan_at(b));

    // The closing quote of the key.
    assert(b.skip(1) =~= k + (colon + (v + (seq!['"'] + rest))));
    lemma_find_quote_prefix(k, colon + (v + (seq!['"'] + rest)));
    assert((colon + (v + (seq!['"'] + rest)))[0] == '"');
    assert(find_quote(colon + (v + (seq!['"'] + rest))) == 0);
    let krel = find_quote(b.skip(1));
    assert(krel == k.len());
    let p1 = 1 + krel;
    assert(b.len() == k.len() + v.len() + 6 + rest.len());
    assert(p1 < b.len());

    // The colon follows at once.
    assert(b.skip(p1 + 1) =~= seq![':', ' ', '"'] + (v + (seq!['"'] + rest)));
    assert(b.skip(p1 + 1)[0] == ':');
    assert(skip_wsp(b.skip(p1 + 1)) == 0);
    let a = p1 + 1;
    assert(b[a] == b.skip(p1 + 1)[0]);
    assert(b[a] == ':');

    // One space, then the opening quote of the value.
    assert(b.skip(a + 1) =~= seq![' ', '"'] + (v + (seq!['"'] + rest)));
    assert(b.skip(a + 1)[0] == ' ');
    assert(b.skip(a + 1).skip(1) =~= seq!['"'] + (v + (seq!['"'] + rest)));
    assert(skip_wsp(b.skip(a + 1).skip(1)) == 0);
    assert(skip_wsp(b.skip(a + 1)) == 1);
    let v0 = a + 2;
    assert(b[v0] == b.skip(a + 1)[1]);
    assert(b[v0] == '"');

    // The closing quote of the value.
    assert(b.skip(v0 + 1) =~= v + (seq!['"'] + rest));
    lemma_find_quote_prefix(v, seq!['"'] + rest);
    assert((seq!['"'] + rest)[0] == '"');
    assert(find_quote(seq!['"'] + rest) == 0);
    let vrel = find_quote(b.skip(v0 + 1));
    assert(vrel == v.len());
    let v1 = v0 + 1 + vrel;
    assert(v1 < b.len());

    assert(b.subrange(1, p1) =~= k);
    assert(b.subrange(v0 + 1, v1) =~= v);
    assert(b.skip(v1 + 1) =~= rest);
    assert(scan_at(b) == seq![(k, v)] + scan_pairs(rest));
}

/// Scanning a serialized pair line yields that pair and goes on with the
/// following lines.
proof fn lemma_scan_mid(k: Seq<char>, v: Seq<char>, rest: Seq<char>)
    requires
        k.len() > 0,
        qn_free(k),
        qn_free(v),
    ensures
        scan_pairs(ser_mid(k, v) + rest) == seq![(k, v)] + scan_pairs(rest),
{
    assert(ser_mid(k, v) + rest =~= ser_pair(k, v) + (seq![',', '\n'] + rest));
    lemma_scan_one(k, v, seq![',', '\n'] + rest);
    lemma_scan_junk(seq![',', '\n'], rest);
}

/// Nothing is scanned from the bare terminator.
proof fn lemma_scan_term()
    ensures
        scan_pairs(seq!['}', ';']) == Seq::<(Seq<char>, Seq<char>)>::empty(),
{
    let t = seq!['}', ';'];
    assert(t.skip(1) =~= seq![';']);
    assert(seq![';'].skip(1) =~= Seq::<char>::empty());
    assert(find_quote(seq![';'].skip(1)) == 0);
    assert(find_quote(seq![';']) == 1);
    assert(find_quote(t) == 2);
}

/// Looking a key up after one more pair hits that pair exactly when the
/// key matches.
proof fn lemma_lookup_snoc(ps: Seq<(Seq<char>, Seq<char>)>, p: (Seq<char>, Seq<char>), k: Seq<char>)
    ensures
        lookup(ps.push(p), k) == (if p.0 == k {
            Some(p.1)
        } else {
            lookup(ps, k)
        }),
{
    assert(ps.push(p).last() == p);
    assert(ps.push(p).drop_last() =~= ps);
}

/// A serialized pair line is free of the terminator when its key and value
/// are.
proof fn lemma_mid_term_free(k: Seq<char>, v: Seq<char>)
    requires
        term_free(k),
        term_free(v),
    ensures
        term_free(ser_pair(k, v)),
        term_free(ser_mid(k, v)),
{
    let colon = seq!['"', ':', ' ', '"'];
    assert(term_free(seq!['"']));
    assert(term_free(colon));
    lemma_term_free_concat(seq!['"'], k);
    lemma_term_free_concat(seq!['"'] + k, colon);
    lemma_term_free_concat(seq!['"'] + k + colon, v);
    lemma_term_free_concat(seq!['"'] + k + colon + v, seq!['"']);
    assert(ser_pair(k, v) =~= seq!['"'] + k + colon + v + seq!['"']);
    assert(term_free(seq![',', '\n']));
    lemma_term_free_concat(ser_pair(k, v), seq![',', '\n']);
}

/// The gender labels read back as themselves, and survive the format.
proof fn lemma_gender_round(g: Gender)
    ensures
        gender_of_text(gender_label(g)) == g,
        gender_label(g).len() > 0,
        qn_free(gender_label(g)),
        term_free(gender_label(g)),
{
    reveal_strlit("Male");
    reveal_strlit("Female");
    reveal_strlit("Other");
    reveal_strlit("male");
    reveal_strlit("female");
    match g {
        Gender::Male => {
            assert(lower_seq("Male"@) =~= "male"@);
        },
        Gender::Female => {
            assert(lower_seq("Female"@) =~= "female"@);
            assert("female"@.len() != "male"@.len());
        },
        Gender::Other => {
            assert(lower_seq("Other"@) =~= lower_seq("Other"@));
            assert(lower_seq("Other"@).len() == 5);
            assert(lower_seq("Other"@) != "male"@) by {
                assert(lower_seq("Other"@).len() != "male"@.len());
            };
            assert(lower_seq("Other"@) != "female"@) by {
                assert(lower_seq("Other"@).len() != "female"@.len());
            };
        },
    }
}

/// A decimal spelling survives the format.
proof fn lemma_dec_clean(n: u8)
    ensures
        dec_u8(n).len() > 0,
        qn_free(dec_u8(n)),
        term_free(dec_u8(n)),
{
    let s = dec_u8(n);
    assert forall|i: int| 0 <= i < s.len() implies s[i] != '"' && s[i] != '\n' && s[i] != '}' by {
        assert(digit_val(s[i]) is Some);
    }
}

/// The record grammar applied to one serialized record: a header line, a
/// block closed by the terminator, then whatever follows.
#[verifier::rlimit(60)]
proof fn lemma_parse_shape(kind: Seq<char>, f: Seq<char>, l: Seq<char>, body_a: Seq<char>, s: Seq<char>)
    requires
        kind.len() > 0,
        forall|i: int| 0 <= i < kind.len() ==> !is_wsp(kind[i]),
        qn_free(f),
        qn_free(l),
        term_free(body_a),
        body_a.len() > 0 ==> body_a.last() != '}',
    ensures
        parse_records(kind + seq![' '] + f + l + seq!['\n'] + body_a + seq!['}', ';', '\n'] + s)
            == ({
            let ps = scan_pairs(body_a + seq!['}', ';']);
            let tail = parse_records(s);
            if kind == "Student"@ {
                with_rec(build_student(ps), tail)
            } else if kind == "Seller"@ {
                with_rec(build_seller(ps), tail)
            } else if kind == "Gardener"@ {
                with_rec(build_gardener(ps), tail)
            } else {
                with_skip(kind, tail)
            }
        }),
{
    let hdr = kind + seq![' '] + f + l;
    let term = seq!['}', ';', '\n'];
    let t = kind + seq![' '] + f + l + seq!['\n'] + body_a + term + s;
    let rst = body_a + (term + s);

    // The header line ends at its own line break.
    assert forall|i: int| 0 <= i < hdr.len() implies hdr[i] != '\n' by {
        if i < kind.len() {
            assert(hdr[i] == kind[i]);
            assert(!is_wsp(kind[i]));
        } else if i == kind.len() {
            assert(hdr[i] == ' ');
        } else if i < kind.len() + 1 + f.len() {
            assert(hdr[i] == f[i - kind.len() - 1]);
        } else {
            assert(hdr[i] == l[i - kind.len() - 1 - f.len()]);
        }
    }
    assert(t =~= hdr + (seq!['\n'] + rst));
    lemma_find_nl_prefix(hdr, seq!['\n'] + rst);
    assert((seq!['\n'] + rst)[0] == '\n');
    assert(find_nl(seq!['\n'] + rst) == 0);
    let e = find_nl(t);
    assert(e == hdr.len());
    assert(e < t.len());
    let line = t.take(e);
    assert(line =~= hdr);
    assert(t.skip(e + 1) =~= rst);

    // The header is not blank, and its first token is the kind tag.
    assert(line[0] == kind[0]);
    assert(!is_wsp(line[0]));
    assert(skip_wsp(line) == 0);
    assert(line.len() > 0);
    assert(line.skip(0) =~= line);
    assert(line =~= kind + (seq![' '] + f + l));
    lemma_token_len_prefix(kind, seq![' '] + f + l);
    assert((seq![' '] + f + l)[0] == ' ');
    assert(is_wsp(' '));
    assert(token_len(seq![' '] + f + l) == 0);
    assert(token_len(line) == kind.len());
    assert(line.subrange(0, kind.len() as int) =~= kind);

    // The block runs to the first terminator, which its own closing line
    // carries.
    lemma_find_term_prefix(body_a, term + s);
    assert((term + s)[0] == '}');
    assert((term + s)[1] == ';');
    assert(find_term(term + s) == 0);
    let p = find_term(rst);
    assert(p == body_a.len());
    assert(rst.len() == body_a.len() + 3 + s.len());
    assert(p < rst.len());
    assert(rst.skip(p + 2) =~= seq!['\n'] + s);
    assert(find_nl(seq!['\n'] + s) == 0);
    let q = p + 2;
    assert(rst.take(q) =~= body_a + seq!['}', ';']);
    assert(q < rst.len());
    assert(rst.skip(q + 1) =~= s);
}

/// The keys and kind tags of the grammar survive the format and carry no
/// whitespace.
proof fn lemma_keys()
    ensures
        "firstName"@.len() > 0 && qn_free("firstName"@) && term_free("firstName"@),
        "lastName"@.len() > 0 && qn_free("lastName"@) && term_free("lastName"@),
        "studentId"@.len() > 0 && qn_free("studentId"@) && term_free("studentId"@),
        "gender"@.len() > 0 && qn_free("gender"@) && term_free("gender"@),
        "course"@.len() > 0 && qn_free("course"@) && term_free("course"@),
        "dorm"@.len() > 0 && qn_free("dorm"@) && term_free("dorm"@),
        "shop"@.len() > 0 && qn_free("shop"@) && term_free("shop"@),
        "experience"@.len() > 0 && qn_free("experience"@) && term_free("experience"@),
        "Student"@.len() > 0 && (forall|i: int|
            0 <= i < "Student"@.len() ==> !is_wsp("Student"@[i])),
        "Seller"@.len() > 0 && (forall|i: int| 0 <= i < "Seller"@.len() ==> !is_wsp("Seller"@[i])),
        "Gardener"@.len() > 0 && (forall|i: int|
            0 <= i < "Gardener"@.len() ==> !is_wsp("Gardener"@[i])),
        "firstName"@ != "studentId"@ && "gender"@ != "course"@,
        "Student"@.len() != "Seller"@.len() && "Student"@.len() != "Gardener"@.len()
            && "Seller"@.len() != "Gardener"@.len(),
        "firstName"@.len() != "lastName"@.len() && "firstName"@.len() != "gender"@.len()
            && "firstName"@.len() != "dorm"@.len() && "firstName"@.len() != "experience"@.len()
            && "firstName"@.len() != "course"@.len() && "firstName"@.len() != "shop"@.len(),
        "lastName"@.len() != "course"@.len() && "lastName"@.len() != "shop"@.len(),
        "studentId"@.len() != "course"@.len(),
        "lastName"@.len() != "studentId"@.len() && "lastName"@.len() != "gender"@.len()
            && "lastName"@.len() != "dorm"@.len() && "lastName"@.len() != "experience"@.len(),
        "studentId"@.len() != "gender"@.len() && "studentId"@.len() != "dorm"@.len()
            && "studentId"@.len() != "experience"@.len(),
        "gender"@.len() != "dorm"@.len() && "gender"@.len() != "shop"@.len() && "gender"@.len()
            != "experience"@.len(),
        "course"@.len() != "dorm"@.len() && "course"@.len() != "experience"@.len(),
{
    reveal_strlit("firstName");
    reveal_strlit("lastName");
    reveal_strlit("studentId");
    reveal_strlit("gender");
    reveal_strlit("course");
    reveal_strlit("dorm");
    reveal_strlit("shop");
    reveal_strlit("experience");
    reveal_strlit("Student");
    reveal_strlit("Seller");
    reveal_strlit("Gardener");
    assert("firstName"@[0] == 'f' && "studentId"@[0] == 's');
    assert("firstName"@ != "studentId"@);
    assert("gender"@[0] == 'g' && "course"@[0] == 'c');
    assert("gender"@ != "course"@);
}

/// The pair lines of a block, one per pair, each continued with a comma.
pub open spec fn mids_of(ps: Seq<(Seq<char>, Seq<char>)>) -> Seq<char>
    decreases ps.len(),
{
    if ps.len() == 0 {
        Seq::empty()
    } else {
        ser_mid(ps[0].0, ps[0].1) + mids_of(ps.skip(1))
    }
}

/// Keys and values that survive the format, keys non-empty.
pub open spec fn pairs_clean(ps: Seq<(Seq<char>, Seq<char>)>) -> bool {
    forall|j: int|
        0 <= j < ps.len() ==> ((#[trigger] ps[j]).0.len() > 0 && qn_free(ps[j].0) && term_free(
            ps[j].0,
        ) && qn_free(ps[j].1) && term_free(ps[j].1))
}

/// A whole block body: the opening brace, the required pair lines, and an
/// optional final pair without its own line break.
pub open spec fn body_of(
    req: Seq<(Seq<char>, Seq<char>)>,
    opt: Option<(Seq<char>, Seq<char>)>,
) -> Seq<char> {
    let base = seq!['{', ' '] + mids_of(req);
    match opt {
        Some(p) => base + ser_pair(p.0, p.1),
        None => base,
    }
}

/// The pairs such a body scans to.
pub open spec fn pairs_of(
    req: Seq<(Seq<char>, Seq<char>)>,
    opt: Option<(Seq<char>, Seq<char>)>,
) -> Seq<(Seq<char>, Seq<char>)> {
    match opt {
        Some(p) => req.push(p),
        None => req,
    }
}

/// Pair lines survive the terminator search; they open with a quote and
/// close with a line break.
proof fn lemma_mids_facts(ps: Seq<(Seq<char>, Seq<char>)>)
    requires
        pairs_clean(ps),
    ensures
        term_free(mids_of(ps)),
        ps.len() > 0 ==> mids_of(ps).len() > 0 && mids_of(ps)[0] == '"' && mids_of(ps).last()
            == '\n',
        ps.len() == 0 ==> mids_of(ps).len() == 0,
    decreases ps.len(),
{
    if ps.len() > 0 {
        let m0 = ser_mid(ps[0].0, ps[0].1);
        let rest = mids_of(ps.skip(1));
        lemma_mid_term_free(ps[0].0, ps[0].1);
        assert(forall|j: int|
            0 <= j < ps.skip(1).len() ==> #[trigger] ps.skip(1)[j] == ps[j + 1]);
        lemma_mids_facts(ps.skip(1));
        assert(m0[0] == '"');
        assert(m0.last() == '\n');
        lemma_term_free_concat(m0, rest);
        assert(mids_of(ps) == m0 + rest);
        assert(mids_of(ps)[0] == '"');
        if ps.skip(1).len() > 0 {
            assert(mids_of(ps).last() == rest.last());
        } else {
            assert(rest.len() == 0);
            assert(mids_of(ps).last() == m0.last());
        }
    }
}

/// Scanning the pair lines yields the pairs and goes on with what follows.
proof fn lemma_scan_mids(ps: Seq<(Seq<char>, Seq<char>)>, rest: Seq<char>)
    requires
        pairs_clean(ps),
    ensures
        scan_pairs(mids_of(ps) + rest) == ps + scan_pairs(rest),
    decreases ps.len(),
{
    if ps.len() == 0 {
        assert(mids_of(ps) + rest =~= rest);
        assert(ps + scan_pairs(rest) =~= scan_pairs(rest));
    } else {
        let tail = mids_of(ps.skip(1)) + rest;
        assert(mids_of(ps) + rest =~= ser_mid(ps[0].0, ps[0].1) + tail);
        lemma_scan_mid(ps[0].0, ps[0].1, tail);
        assert(forall|j: int|
            0 <= j < ps.skip(1).len() ==> #[trigger] ps.skip(1)[j] == ps[j + 1]);
        lemma_scan_mids(ps.skip(1), rest);
        assert(seq![ps[0]] + (ps.skip(1) + scan_pairs(rest)) =~= ps + scan_pairs(rest));
    }
}

/// A whole block body survives the terminator search, does not end in a
/// closing brace, and scans to its pairs once the terminator is appended.
proof fn lemma_body_scan(req: Seq<(Seq<char>, Seq<char>)>, opt: Option<(Seq<char>, Seq<char>)>)
    requires
        pairs_clean(req),
        match opt {
            Some(p) => p.0.len() > 0 && qn_free(p.0) && term_free(p.0) && qn_free(p.1)
                && term_free(p.1),
            None => true,
        },
    ensures
        term_free(body_of(req, opt)),
        body_of(req, opt).len() > 0,
        body_of(req, opt).last() != '}',
        scan_pairs(body_of(req, opt) + seq!['}', ';']) == pairs_of(req, opt),
{
    lemma_mids_facts(req);
    let open2 = seq!['{', ' '];
    assert(term_free(open2));
    let mids = mids_of(req);
    lemma_term_free_concat(open2, mids);
    let base = open2 + mids;
    assert(base.last() != '}');
    lemma_scan_term();
    match opt {
        Some(p) => {
            let pr = ser_pair(p.0, p.1);
            lemma_mid_term_free(p.0, p.1);
            assert(pr[0] == '"');
            assert(pr.last() == '"');
            lemma_term_free_concat(base, pr);
            let body = body_of(req, opt);
            assert(body == base + pr);
            assert(body.last() == '"');
            let block = body + seq!['}', ';'];
            assert(block =~= open2 + (mids + (pr + seq!['}', ';'])));
            lemma_scan_junk(open2, mids + (pr + seq!['}', ';']));
            lemma_scan_mids(req, pr + seq!['}', ';']);
            lemma_scan_one(p.0, p.1, seq!['}', ';']);
            assert(scan_pairs(block) =~= pairs_of(req, opt));
        },
        None => {
            let body = body_of(req, opt);
            assert(body == base);
            let block = body + seq!['}', ';'];
            assert(block =~= open2 + (mids + seq!['}', ';']));
            lemma_scan_junk(open2, mids + seq!['}', ';']);
            lemma_scan_mids(req, seq!['}', ';']);
            assert(scan_pairs(block) =~= pairs_of(req, opt));
        },
    }
}

/// A key that occurs nowhere finds nothing.
proof fn lemma_lookup_absent(ps: Seq<(Seq<char>, Seq<char>)>, k: Seq<char>)
    requires
        forall|j: int| 0 <= j < ps.len() ==> (#[trigger] ps[j]).0 != k,
    ensures
        lookup(ps, k) is None,
    decreases ps.len(),
{
    if ps.len() > 0 {
        assert(ps.last() == ps[ps.len() - 1]);
        assert(forall|j: int|
            0 <= j < ps.drop_last().len() ==> #[trigger] ps.drop_last()[j] == ps[j]);
        lemma_lookup_absent(ps.drop_last(), k);
    }
}

/// A key whose last occurrence stands at position `j` finds that value.
proof fn lemma_lookup_found(ps: Seq<(Seq<char>, Seq<char>)>, j: int, k: Seq<char>)
    requires
        0 <= j < ps.len(),
        ps[j].0 == k,
        forall|j2: int| j < j2 < ps.len() ==> (#[trigger] ps[j2]).0 != k,
    ensures
        lookup(ps, k) == Some(ps[j].1),
    decreases ps.len(),
{
    if j == ps.len() - 1 {
        assert(ps.last() == ps[j]);
    } else {
        assert(ps.last() == ps[ps.len() - 1]);
        assert(ps.last().0 != k);
        assert(forall|j2: int|
            0 <= j2 < ps.drop_last().len() ==> #[trigger] ps.drop_last()[j2] == ps[j2]);
        lemma_lookup_found(ps.drop_last(), j, k);
    }
}

/// Parsing the text a clean student serializes to yields that student back
/// and goes on with the rest of the text.
#[verifier::rlimit(100)]
#[verifier::spinoff_prover]
proof fn lemma_prepend_student(sv: StudentV, s: Seq<char>)
    requires
        entity_clean(EntityV::Student(sv)),
    ensures
        parse_records(ser_entity(EntityV::Student(sv)) + s) == with_rec(
            Some(EntityV::Student(sv)),
            parse_records(s),
        ),
{
    lemma_keys();
    lemma_gender_round(sv.gender);
    lemma_dec_clean(sv.course);
    lemma_dec_u8_round_trip(sv.course);
    let f = sv.first_name;
    let l = sv.last_name;
    let id = sv.student_id;
    let gl = gender_label(sv.gender);
    let cd = dec_u8(sv.course);
    let req = seq![
        ("firstName"@, f),
        ("lastName"@, l),
        ("studentId"@, id),
        ("gender"@, gl),
        ("course"@, cd),
    ];
    let opt = match sv.dormitory_room {
        Some(d) => Some(("dorm"@, d)),
        None => None,
    };
    assert forall|j: int| 0 <= j < req.len() implies ((#[trigger] req[j]).0.len() > 0 && qn_free(
        req[j].0,
    ) && term_free(req[j].0) && qn_free(req[j].1) && term_free(req[j].1)) by {
        if j == 0 {
            assert(req[0] == ("firstName"@, f));
        } else if j == 1 {
            assert(req[1] == ("lastName"@, l));
        } else if j == 2 {
            assert(req[2] == ("studentId"@, id));
        } else if j == 3 {
            assert(req[3] == ("gender"@, gl));
        } else {
            assert(req[4] == ("course"@, cd));
        }
    }
    let body = body_of(req, opt);
    lemma_body_scan(req, opt);

    // The serialized record is the header line, the body, and the
    // terminator line.
    let m1 = ser_mid("firstName"@, f);
    let m2 = ser_mid("lastName"@, l);
    let m3 = ser_mid("studentId"@, id);
    let m4 = ser_mid("gender"@, gl);
    let m5 = ser_mid("course"@, cd);
    let e0 = Seq::<(Seq<char>, Seq<char>)>::empty();
    let t1 = seq![("course"@, cd)];
    let t2 = seq![("gender"@, gl), ("course"@, cd)];
    let t3 = seq![("studentId"@, id), ("gender"@, gl), ("course"@, cd)];
    let t4 = seq![("lastName"@, l), ("studentId"@, id), ("gender"@, gl), ("course"@, cd)];
    assert(mids_of(e0) == Seq::<char>::empty());
    assert(t1.skip(1) =~= e0);
    assert(mids_of(t1) == m5 + mids_of(e0));
    assert(t2.skip(1) =~= t1);
    assert(mids_of(t2) == m4 + mids_of(t1));
    assert(t3.skip(1) =~= t2);
    assert(mids_of(t3) == m3 + mids_of(t2));
    assert(t4.skip(1) =~= t3);
    assert(mids_of(t4) == m2 + mids_of(t3));
    assert(req.skip(1) =~= t4);
    assert(mids_of(req) == m1 + mids_of(t4));
    assert(ser_entity(EntityV::Student(sv)) + s =~= "Student"@ + seq![' '] + f + l + seq!['\n']
        + body + seq!['}', ';', '\n'] + s);
    lemma_parse_shape("Student"@, f, l, body, s);

    // Each key finds its field.
    let ps = pairs_of(req, opt);
    assert(ps[0] == ("firstName"@, f) && ps[1] == ("lastName"@, l) && ps[2] == ("studentId"@, id)
        && ps[3] == ("gender"@, gl) && ps[4] == ("course"@, cd));
    assert forall|j2: int| 0 < j2 < ps.len() implies (#[trigger] ps[j2]).0 != "firstName"@ by {
        if j2 == 1 {
            assert(ps[j2].0 == "lastName"@);
        } else if j2 == 2 {
            assert(ps[j2].0 == "studentId"@);
        } else if j2 == 3 {
            assert(ps[j2].0 == "gender"@);
        } else if j2 == 4 {
            assert(ps[j2].0 == "course"@);
        } else {
            assert(ps[j2].0 == "dorm"@);
        }
    }
    lemma_lookup_found(ps, 0, "firstName"@);
    assert forall|j2: int| 1 < j2 < ps.len() implies (#[trigger] ps[j2]).0 != "lastName"@ by {
        if j2 == 2 {
            assert(ps[j2].0 == "studentId"@);
        } else if j2 == 3 {
            assert(ps[j2].0 == "gender"@);
        } else if j2 == 4 {
            assert(ps[j2].0 == "course"@);
        } else {
            assert(ps[j2].0 == "dorm"@);
        }
    }
    lemma_lookup_found(ps, 1, "lastName"@);
    assert forall|j2: int| 2 < j2 < ps.len() implies (#[trigger] ps[j2]).0 != "studentId"@ by {
        if j2 == 3 {
            assert(ps[j2].0 == "gender"@);
        } else if j2 == 4 {
            assert(ps[j2].0 == "course"@);
        } else {
            assert(ps[j2].0 == "dorm"@);
        }
    }
    lemma_lookup_found(ps, 2, "studentId"@);
    assert forall|j2: int| 3 < j2 < ps.len() implies (#[trigger] ps[j2]).0 != "gender"@ by {
        if j2 == 4 {
            assert(ps[j2].0 == "course"@);
        } else {
            assert(ps[j2].0 == "dorm"@);
        }
    }
    lemma_lookup_found(ps, 3, "gender"@);
    assert forall|j2: int| 4 < j2 < ps.len() implies (#[trigger] ps[j2]).0 != "course"@ by {
        assert(ps[j2].0 == "dorm"@);
    }
    lemma_lookup_found(ps, 4, "course"@);
    match sv.dormitory_room {
        Some(d) => {
            assert(ps[5] == ("dorm"@, d));
            lemma_lookup_found(ps, 5, "dorm"@);
        },
        None => {
            assert forall|j2: int| 0 <= j2 < ps.len() implies (#[trigger] ps[j2]).0 != "dorm"@ by {
                if j2 == 0 {
                    assert(ps[j2].0 == "firstName"@);
                } else if j2 == 1 {
                    assert(ps[j2].0 == "lastName"@);
                } else if j2 == 2 {
                    assert(ps[j2].0 == "studentId"@);
                } else if j2 == 3 {
                    assert(ps[j2].0 == "gender"@);
                } else {
                    assert(ps[j2].0 == "course"@);
                }
            }
            lemma_lookup_absent(ps, "dorm"@);
        },
    }
    assert(build_student(ps) == Some(EntityV::Student(sv)));
}

/// Parsing the text a clean seller serializes to yields that seller back
/// and goes on with the rest of the text.
#[verifier::rlimit(100)]
#[verifier::spinoff_prover]
proof fn lemma_prepend_seller(sv: SellerV, s: Seq<char>)
    requires
        entity_clean(EntityV::Seller(sv)),
    ensures
        parse_records(ser_entity(EntityV::Seller(sv)) + s) == with_rec(
            Some(EntityV::Seller(sv)),
            parse_records(s),
        ),
{
    lemma_keys();
    lemma_gender_round(sv.gender);
    let f = sv.first_name;
    let l = sv.last_name;
    let gl = gender_label(sv.gender);
    let req = seq![("firstName"@, f), ("lastName"@, l), ("gender"@, gl)];
    let opt = match sv.shop {
        Some(sh) => Some(("shop"@, sh)),
        None => None,
    };
    assert forall|j: int| 0 <= j < req.len() implies ((#[trigger] req[j]).0.len() > 0 && qn_free(
        req[j].0,
    ) && term_free(req[j].0) && qn_free(req[j].1) && term_free(req[j].1)) by {
        if j == 0 {
            assert(req[0] == ("firstName"@, f));
        } else if j == 1 {
            assert(req[1] == ("lastName"@, l));
        } else {
            assert(req[2] == ("gender"@, gl));
        }
    }
    let body = body_of(req, opt);
    lemma_body_scan(req, opt);
    let m1 = ser_mid("firstName"@, f);
    let m2 = ser_mid("lastName"@, l);
    let m3 = ser_mid("gender"@, gl);
    let e0 = Seq::<(Seq<char>, Seq<char>)>::empty();
    let t1 = seq![("gender"@, gl)];
    let t2 = seq![("lastName"@, l), ("gender"@, gl)];
    assert(mids_of(e0) == Seq::<char>::empty());
    assert(t1.skip(1) =~= e0);
    assert(mids_of(t1) == m3 + mids_of(e0));
    assert(t2.skip(1) =~= t1);
    assert(mids_of(t2) == m2 + mids_of(t1));
    assert(req.skip(1) =~= t2);
    assert(mids_of(req) == m1 + mids_of(t2));
    assert(ser_entity(EntityV::Seller(sv)) + s =~= "Seller"@ + seq![' '] + f + l + seq!['\n']
        + body + seq!['}', ';', '\n'] + s);
    lemma_parse_shape("Seller"@, f, l, body, s);
    let ps = pairs_of(req, opt);
    assert(ps[0] == ("firstName"@, f) && ps[1] == ("lastName"@, l) && ps[2] == ("gender"@, gl));
    assert forall|j2: int| 0 < j2 < ps.len() implies (#[trigger] ps[j2]).0 != "firstName"@ by {
        if j2 == 1 {
            assert(ps[j2].0 == "lastName"@);
        } else if j2 == 2 {
            assert(ps[j2].0 == "gender"@);
        } else {
            assert(ps[j2].0 == "shop"@);
        }
    }
    lemma_lookup_found(ps, 0, "firstName"@);
    assert forall|j2: int| 1 < j2 < ps.len() implies (#[trigger] ps[j2]).0 != "lastName"@ by {
        if j2 == 2 {
            assert(ps[j2].0 == "gender"@);
        } else {
            assert(ps[j2].0 == "shop"@);
        }
    }
    lemma_lookup_found(ps, 1, "lastName"@);
    assert forall|j2: int| 2 < j2 < ps.len() implies (#[trigger] ps[j2]).0 != "gender"@ by {
        assert(ps[j2].0 == "shop"@);
    }
    lemma_lookup_found(ps, 2, "gender"@);
    match sv.shop {
        Some(sh) => {
            assert(ps[3] == ("shop"@, sh));
            lemma_lookup_found(ps, 3, "shop"@);
        },
        None => {
            assert forall|j2: int| 0 <= j2 < ps.len() implies (#[trigger] ps[j2]).0 != "shop"@ by {
                if j2 == 0 {
                    assert(ps[j2].0 == "firstName"@);
                } else if j2 == 1 {
                    assert(ps[j2].0 == "lastName"@);
                } else {
                    assert(ps[j2].0 == "gender"@);
                }
            }
            lemma_lookup_absent(ps, "shop"@);
        },
    }
    assert(build_seller(ps) == Some(EntityV::Seller(sv)));
}

/// Parsing the text a clean gardener serializes to yields that gardener
/// back and goes on with the rest of the text.
#[verifier::rlimit(100)]
#[verifier::spinoff_prover]
proof fn lemma_prepend_gardener(gv: GardenerV, s: Seq<char>)
    requires
        entity_clean(EntityV::Gardener(gv)),
    ensures
        parse_records(ser_entity(EntityV::Gardener(gv)) + s) == with_rec(
            Some(EntityV::Gardener(gv)),
            parse_records(s),
        ),
{
    lemma_keys();
    lemma_gender_round(gv.gender);
    let f = gv.first_name;
    let l = gv.last_name;
    let gl = gender_label(gv.gender);
    let req = seq![("firstName"@, f), ("lastName"@, l), ("gender"@, gl)];
    let opt = match gv.experience_years {
        Some(y) => Some(("experience"@, dec_u8(y))),
        None => None,
    };
    if let Some(y) = gv.experience_years {
        lemma_dec_clean(y);
        lemma_dec_u8_round_trip(y);
    }
    assert forall|j: int| 0 <= j < req.len() implies ((#[trigger] req[j]).0.len() > 0 && qn_free(
        req[j].0,
    ) && term_free(req[j].0) && qn_free(req[j].1) && term_free(req[j].1)) by {
        if j == 0 {
            assert(req[0] == ("firstName"@, f));
        } else if j == 1 {
            assert(req[1] == ("lastName"@, l));
        } else {
            assert(req[2] == ("gender"@, gl));
        }
    }
    let body = body_of(req, opt);
    lemma_body_scan(req, opt);
    let m1 = ser_mid("firstName"@, f);
    let m2 = ser_mid("lastName"@, l);
    let m3 = ser_mid("gender"@, gl);
    let e0 = Seq::<(Seq<char>, Seq<char>)>::empty();
    let t1 = seq![("gender"@, gl)];
    let t2 = seq![("lastName"@, l), ("gender"@, gl)];
    assert(mids_of(e0) == Seq::<char>::empty());
    assert(t1.skip(1) =~= e0);
    assert(mids_of(t1) == m3 + mids_of(e0));
    assert(t2.skip(1) =~= t1);
    assert(mids_of(t2) == m2 + mids_of(t1));
    assert(req.skip(1) =~= t2);
    assert(mids_of(req) == m1 + mids_of(t2));
    assert(ser_entity(EntityV::Gardener(gv)) + s =~= "Gardener"@ + seq![' '] + f + l + seq!['\n']
        + body + seq!['}', ';', '\n'] + s);
    lemma_parse_shape("Gardener"@, f, l, body, s);
    let ps = pairs_of(req, opt);
    assert(ps[0] == ("firstName"@, f) && ps[1] == ("lastName"@, l) && ps[2] == ("gender"@, gl));
    assert forall|j2: int| 0 < j2 < ps.len() implies (#[trigger] ps[j2]).0 != "firstName"@ by {
        if j2 == 1 {
            assert(ps[j2].0 == "lastName"@);
        } else if j2 == 2 {
            assert(ps[j2].0 == "gender"@);
        } else {
            assert(ps[j2].0 == "experience"@);
        }
    }
    lemma_lookup_found(ps, 0, "firstName"@);
    assert forall|j2: int| 1 < j2 < ps.len() implies (#[trigger] ps[j2]).0 != "lastName"@ by {
        if j2 == 2 {
            assert(ps[j2].0 == "gender"@);
        } else {
            assert(ps[j2].0 == "experience"@);
        }
    }
    lemma_lookup_found(ps, 1, "lastName"@);
    assert forall|j2: int| 2 < j2 < ps.len() implies (#[trigger] ps[j2]).0 != "gender"@ by {
        assert(ps[j2].0 == "experience"@);
    }
    lemma_lookup_found(ps, 2, "gender"@);
    match gv.experience_years {
        Some(y) => {
            assert(ps[3] == ("experience"@, dec_u8(y)));
            lemma_lookup_found(ps, 3, "experience"@);
        },
        None => {
            assert forall|j2: int| 0 <= j2 < ps.len() implies (#[trigger] ps[j2]).0
                != "experience"@ by {
                if j2 == 0 {
                    assert(ps[j2].0 == "firstName"@);
                } else if j2 == 1 {
                    assert(ps[j2].0 == "lastName"@);
                } else {
                    assert(ps[j2].0 == "gender"@);
                }
            }
            lemma_lookup_absent(ps, "experience"@);
        },
    }
    assert(build_gardener(ps) == Some(EntityV::Gardener(gv)));
}

/// Parsing text that opens with the serialization of one clean record
/// yields that record and then whatever the rest of the text yields: a
/// record prepended to a stream survives the format in place.
pub proof fn lemma_parse_serialized_record(r: EntityV, s: Seq<char>)
    requires
        entity_clean(r),
    ensures
        parse_records(ser_entity(r) + s) == with_rec(Some(r), parse_records(s)),
{
    match r {
        EntityV::Student(sv) => lemma_prepend_student(sv, s),
        EntityV::Seller(sv) => lemma_prepend_seller(sv, s),
        EntityV::Gardener(gv) => lemma_prepend_gardener(gv, s),
    }
}

/// Round trip: parsing the text one clean record serializes to yields
/// exactly that record, equal in every field, with nothing skipped.
pub proof fn lemma_round_trip(r: EntityV)
    requires
        entity_clean(r),
    ensures
        parse_records(ser_entity(r)) == Some(
            ParsedFile { recs: seq![r], skipped: Seq::empty() },
        ),
{
    lemma_parse_serialized_record(r, Seq::empty());
    assert(ser_entity(r) + Seq::<char>::empty() =~= ser_entity(r));
    assert(parse_records(Seq::<char>::empty()) == Some(
        ParsedFile { recs: Seq::empty(), skipped: Seq::empty() },
    ));
    assert(seq![r] + Seq::<EntityV>::empty() =~= seq![r]);
}

/// A record of unknown kind, followed by a terminated block, is skipped:
/// its kind tag is reported, and the rest of the text parses as it would
/// alone.
pub proof fn lemma_unknown_kind_skipped(
    kind: Seq<char>,
    f: Seq<char>,
    l: Seq<char>,
    body_a: Seq<char>,
    s: Seq<char>,
)
    requires
        kind.len() > 0,
        forall|i: int| 0 <= i < kind.len() ==> !is_wsp(kind[i]),
        kind != "Student"@ && kind != "Seller"@ && kind != "Gardener"@,
        qn_free(f),
        qn_free(l),
        term_free(body_a),
        body_a.len() > 0 ==> body_a.last() != '}',
    ensures
        parse_records(kind + seq![' '] + f + l + seq!['\n'] + body_a + seq!['}', ';', '\n'] + s)
            == with_skip(kind, parse_records(s)),
{
    lemma_parse_shape(kind, f, l, body_a, s);
}

/// A format error anywhere in the stream aborts the whole read: however
/// many clean records precede the broken text, nothing is returned.
pub proof fn lemma_error_aborts_whole_read(r: EntityV, s: Seq<char>)
    requires
        entity_clean(r),
        parse_records(s) is None,
    ensures
        parse_records(ser_entity(r) + s) is None,
{
    lemma_parse_serialized_record(r, s);
}

/// Serializing any number of clean records and parsing the result yields
/// exactly those records, in order, with nothing skipped.
pub proof fn lemma_parse_serialize_all(rs: Seq<EntityV>)
    requires
        forall|i: int| 0 <= i < rs.len() ==> entity_clean(#[trigger] rs[i]),
    ensures
        parse_records(ser_all(rs)) == Some(ParsedFile { recs: rs, skipped: Seq::empty() }),
    decreases rs.len(),
{
    if rs.len() == 0 {
        assert(rs =~= Seq::<EntityV>::empty());
    } else {
        assert(forall|i: int|
            0 <= i < rs.skip(1).len() ==> #[trigger] rs.skip(1)[i] == rs[i + 1]);
        lemma_parse_serialize_all(rs.skip(1));
        lemma_parse_serialized_record(rs[0], ser_all(rs.skip(1)));
        assert(seq![rs[0]] + rs.skip(1) =~= rs);
    }
}

} // verus!
