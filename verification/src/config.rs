//! The configuration grammar and its verified parser. The accepted text
//! is a line-oriented mapping of realm names to realm policies:
//!
//! - blank lines (whitespace only) and lines whose first non-blank
//!   character is `#` are ignored;
//! - `[realms]` opens the realm table;
//! - `[realms.NAME]` opens one realm, `NAME` made of ASCII letters,
//!   digits, `_` and `-`;
//! - `KEY = "VALUE"` assigns a field of the open realm; the value is a
//!   double-quoted string without escapes; spaces around the key and the
//!   value are ignored;
//! - every realm needs `transport = "S3"`, `access_key`,
//!   `secret_access_key`, `bucket`, and exactly one of `region` or
//!   `endpoint`; `prefix` and `contains` are optional and default to the
//!   empty string; other keys, repeated keys and repeated realm names are
//!   rejected.

use vstd::prelude::*;
use crate::errors::Error;
use crate::realms::{LocationV, Realm, RealmLocation, RealmV, RealmsConfig, realms_v};
use crate::s3::{RegionV, S3Region};
use crate::strutil::{
    find_char, first_index, is_space, is_space_c, lemma_first_index, lemma_first_index_of,
    lemma_trim_end_idx, lemma_trim_start_idx, spec_trim, str_eq, trim, trim_end, trim_start,
};

verus! {

/// The view of a sequence of owned lines.
pub open spec fn lines_v(ls: Seq<String>) -> Seq<Seq<char>> {
    ls.map_values(|l: String| l@)
}

/// The lines of a text: the segments between `\n` characters. A trailing
/// newline yields a final empty line.
pub open spec fn spec_lines(s: Seq<char>) -> Seq<Seq<char>>
    decreases s.len(),
    via spec_lines_decreases
{
    let nl = first_index(s, '\n');
    if nl == s.len() {
        seq![s]
    } else {
        seq![s.take(nl)] + spec_lines(s.skip(nl + 1))
    }
}

#[via_fn]
proof fn spec_lines_decreases(s: Seq<char>) {
    lemma_first_index(s, '\n');
}

/// Splits a text into its lines.
pub fn split_lines(text: &str) -> (lines: Vec<String>)
    ensures
        lines_v(lines@) == spec_lines(text@),
{
    let len = text.unicode_len();
    let mut lines: Vec<String> = Vec::new();
    let mut pos: usize = 0;
    proof {
        assert(lines_v(lines@) =~= Seq::<Seq<char>>::empty());
        assert(text@.skip(0) =~= text@);
        assert(lines_v(lines@) + spec_lines(text@.skip(0)) =~= spec_lines(text@));
    }
    loop
        invariant
            pos <= len,
            len == text@.len(),
            spec_lines(text@) == lines_v(lines@) + spec_lines(text@.skip(pos as int)),
        ensures
            lines_v(lines@) == spec_lines(text@),
        decreases len - pos,
    {
        let nl = find_char(text, pos, '\n');
        proof {
            let rest = text@.skip(pos as int);
            assert forall|j: int| 0 <= j < nl - pos implies rest[j] != '\n' by {
                assert(rest[j] == text@[j + pos]);
            }
            if nl < len {
                assert(rest[nl - pos] == text@[nl as int]);
            }
            lemma_first_index_of(rest, '\n', nl - pos);
        }
        if nl == len {
            let line = text.substring_char(pos, len).to_owned();
            proof {
                let rest = text@.skip(pos as int);
                assert(first_index(rest, '\n') == rest.len());
                assert(spec_lines(rest) == seq![rest]);
                assert(line@ =~= rest);
                assert(lines_v(lines@.push(line)) =~= lines_v(lines@).push(rest));
                assert(lines_v(lines@.push(line)) =~= spec_lines(text@));
            }
            lines.push(line);
            return lines;
        }
        let line = text.substring_char(pos, nl).to_owned();
        proof {
            let rest = text@.skip(pos as int);
            let fi = first_index(rest, '\n');
            assert(fi == nl - pos);
            assert(rest.take(fi) =~= text@.subrange(pos as int, nl as int));
            assert(rest.skip(fi + 1) =~= text@.skip(nl + 1));
            assert(spec_lines(rest) == seq![line@] + spec_lines(text@.skip(nl + 1)));
            assert(lines_v(lines@.push(line)) =~= lines_v(lines@).push(line@));
            assert(lines_v(lines@).push(line@) + spec_lines(text@.skip(nl + 1)) =~= lines_v(lines@)
                + spec_lines(rest));
        }
        lines.push(line);
        pos = nl + 1;
    }
}

/// One classified line of configuration text (spec level).
pub enum LineV {
    Blank,
    RealmsHeader,
    RealmHeader(Seq<char>),
    Assign(Seq<char>, Seq<char>),
    Bad,
}

/// One classified line of configuration text.
pub enum LineKind {
    Blank,
    RealmsHeader,
    RealmHeader(String),
    Assign(String, String),
    Bad,
}

impl View for LineKind {
    type V = LineV;

    open spec fn view(&self) -> LineV {
        match self {
            LineKind::Blank => LineV::Blank,
            LineKind::RealmsHeader => LineV::RealmsHeader,
            LineKind::RealmHeader(n) => LineV::RealmHeader(n@),
            LineKind::Assign(k, v) => LineV::Assign(k@, v@),
            LineKind::Bad => LineV::Bad,
        }
    }
}

/// A character a key or realm name may hold: ASCII letters, digits, `_`
/// and `-`.
pub open spec fn is_key_char(c: char) -> bool {
    ('a' <= c && c <= 'z') || ('A' <= c && c <= 'Z') || ('0' <= c && c <= '9') || c == '_' || c
        == '-'
}

/// A non-empty run of key characters.
pub open spec fn all_key_chars(s: Seq<char>) -> bool {
    s.len() > 0 && forall|i: int| 0 <= i < s.len() ==> is_key_char(s[i])
}

/// `p` is a prefix of `s`.
pub open spec fn starts_with(s: Seq<char>, p: Seq<char>) -> bool {
    p.len() <= s.len() && s.subrange(0, p.len() as int) == p
}

/// A double-quoted string without escapes or inner quotes.
pub open spec fn quoted_ok(v: Seq<char>) -> bool {
    v.len() >= 2 && v[0] == '"' && v[v.len() - 1] == '"' && forall|i: int|
        1 <= i < v.len() - 1 ==> (v[i] != '"' && v[i] != '\\')
}

/// The content between the quotes.
pub open spec fn unquote(v: Seq<char>) -> Seq<char> {
    v.subrange(1, v.len() - 1)
}

/// What a line of configuration text means.
pub open spec fn classify(line: Seq<char>) -> LineV {
    let t = spec_trim(line);
    if t.len() == 0 {
        LineV::Blank
    } else if t[0] == '#' {
        LineV::Blank
    } else if t[0] == '[' {
        if t.len() >= 2 && t[t.len() - 1] == ']' {
            let inner = t.subrange(1, t.len() - 1);
            if inner == "realms"@ {
                LineV::RealmsHeader
            } else if starts_with(inner, "realms."@) && all_key_chars(
                inner.skip("realms."@.len() as int),
            ) {
                LineV::RealmHeader(inner.skip("realms."@.len() as int))
            } else {
                LineV::Bad
            }
        } else {
            LineV::Bad
        }
    } else {
        let e = first_index(t, '=');
        if e == t.len() {
            LineV::Bad
        } else {
            let k = trim_end(t.take(e));
            let v = trim_start(t.skip(e + 1));
            if all_key_chars(k) && quoted_ok(v) {
                LineV::Assign(k, unquote(v))
            } else {
                LineV::Bad
            }
        }
    }
}

/// Executable check for `all_key_chars`.
fn check_key_chars(s: &str) -> (r: bool)
    ensures
        r == all_key_chars(s@),
{
    let len = s.unicode_len();
    if len == 0 {
        return false;
    }
    let mut i: usize = 0;
    while i < len
        invariant
            i <= len,
            len == s@.len(),
            forall|j: int| 0 <= j < i ==> is_key_char(s@[j]),
        decreases len - i,
    {
        let c = s.get_char(i);
        if !(('a' <= c && c <= 'z') || ('A' <= c && c <= 'Z') || ('0' <= c && c <= '9') || c == '_'
            || c == '-') {
            return false;
        }
        i += 1;
    }
    true
}

/// Executable check for `starts_with`.
fn starts_with_str(s: &str, p: &str) -> (r: bool)
    ensures
        r == starts_with(s@, p@),
{
    let slen = s.unicode_len();
    let plen = p.unicode_len();
    if plen > slen {
        return false;
    }
    let mut i: usize = 0;
    while i < plen
        invariant
            plen <= slen,
            slen == s@.len(),
            plen == p@.len(),
            i <= plen,
            forall|j: int| 0 <= j < i ==> s@[j] == p@[j],
        decreases plen - i,
    {
        if s.get_char(i) != p.get_char(i) {
            proof {
                if starts_with(s@, p@) {
                    assert(s@.subrange(0, p@.len() as int)[i as int] == p@[i as int]);
                    assert(false);
                }
            }
            return false;
        }
        i += 1;
    }
    proof {
        assert(s@.subrange(0, p@.len() as int) =~= p@);
    }
    true
}

/// Classifies one line.
#[verifier::loop_isolation(false)]
fn classify_line(line: &str) -> (k: LineKind)
    ensures
        k@ == classify(line@),
{
    let t = trim(line);
    let ts = t.as_str();
    let tlen = ts.unicode_len();
    if tlen == 0 {
        return LineKind::Blank;
    }
    let c0 = ts.get_char(0);
    if c0 == '#' {
        return LineKind::Blank;
    }
    if c0 == '[' {
        if tlen >= 2 && ts.get_char(tlen - 1) == ']' {
            let inner = ts.substring_char(1, tlen - 1);
            if str_eq(inner, "realms") {
                return LineKind::RealmsHeader;
            }
            if starts_with_str(inner, "realms.") {
                proof {
                    reveal_strlit("realms.");
                }
                let name = inner.substring_char(7, tlen - 2);
                proof {
                    assert(name@ =~= inner@.skip("realms."@.len() as int));
                }
                if check_key_chars(name) {
                    return LineKind::RealmHeader(name.to_owned());
                }
            }
            return LineKind::Bad;
        }
        return LineKind::Bad;
    }
    let e = find_char(ts, 0, '=');
    proof {
        lemma_first_index_of(ts@, '=', e as int);
    }
    if e == tlen {
        return LineKind::Bad;
    }
    // key: strip the spaces before `=`
    let mut ke: usize = e;
    while ke > 0 && is_space_c(ts.get_char(ke - 1))
        invariant
            ke <= e,
            e < tlen,
            tlen == ts@.len(),
            forall|j: int| ke <= j < e ==> is_space(ts@[j]),
        decreases ke,
    {
        ke -= 1;
    }
    proof {
        let kpart = ts@.take(e as int);
        assert forall|j: int| ke <= j < kpart.len() implies is_space(kpart[j]) by {
            assert(kpart[j] == ts@[j]);
        }
        lemma_trim_end_idx(kpart, ke as int);
        assert(kpart.take(ke as int) =~= ts@.subrange(0, ke as int));
    }
    let key = ts.substring_char(0, ke);
    // value: strip the spaces after `=`
    let mut vs: usize = e + 1;
    while vs < tlen && is_space_c(ts.get_char(vs))
        invariant
            e + 1 <= vs <= tlen,
            tlen == ts@.len(),
            forall|j: int| e + 1 <= j < vs ==> is_space(ts@[j]),
        decreases tlen - vs,
    {
        vs += 1;
    }
    proof {
        let vpart = ts@.skip(e + 1);
        assert forall|j: int| 0 <= j < vs - (e + 1) implies is_space(vpart[j]) by {
            assert(vpart[j] == ts@[j + e + 1]);
        }
        if vs < tlen {
            assert(vpart[vs - (e + 1)] == ts@[vs as int]);
        }
        lemma_trim_start_idx(vpart, vs - (e + 1));
        assert(vpart.skip(vs - (e + 1)) =~= ts@.subrange(vs as int, tlen as int));
    }
    let ghost vseq = ts@.subrange(vs as int, tlen as int);
    if !check_key_chars(key) {
        return LineKind::Bad;
    }
    // the value must be a quoted string without escapes
    if tlen - vs < 2 || ts.get_char(vs) != '"' || ts.get_char(tlen - 1) != '"' {
        return LineKind::Bad;
    }
    let mut q: usize = vs + 1;
    while q < tlen - 1
        invariant
            vs + 1 <= q <= tlen - 1,
            tlen == ts@.len(),
            vseq == ts@.subrange(vs as int, tlen as int),
            forall|j: int| vs + 1 <= j < q ==> (ts@[j] != '"' && ts@[j] != '\\'),
        decreases tlen - q,
    {
        let c = ts.get_char(q);
        if c == '"' || c == '\\' {
            proof {
                assert(vseq[q - vs] == ts@[q as int]);
                assert(!quoted_ok(vseq));
            }
            return LineKind::Bad;
        }
        q += 1;
    }
    proof {
        assert forall|i: int| 1 <= i < vseq.len() - 1 implies (vseq[i] != '"' && vseq[i] != '\\') by {
            assert(vseq[i] == ts@[i + vs]);
        }
        assert(vseq[0] == ts@[vs as int]);
        assert(vseq[vseq.len() - 1] == ts@[tlen - 1]);
        assert(quoted_ok(vseq));
        assert(unquote(vseq) =~= ts@.subrange(vs + 1, tlen - 1));
    }
    let value = ts.substring_char(vs + 1, tlen - 1);
    LineKind::Assign(key.to_owned(), value.to_owned())
}

/// The view of a sequence of owned field assignments.
pub open spec fn fields_v(fs: Seq<(String, String)>) -> Seq<(Seq<char>, Seq<char>)> {
    fs.map_values(|p: (String, String)| (p.0@, p.1@))
}

/// The value of the first field under key `k`, if any.
pub open spec fn field_lookup(fields: Seq<(Seq<char>, Seq<char>)>, k: Seq<char>) -> Option<
    Seq<char>,
>
    decreases fields.len(),
{
    if fields.len() == 0 {
        None
    } else if fields[0].0 == k {
        Some(fields[0].1)
    } else {
        field_lookup(fields.drop_first(), k)
    }
}

/// `field_lookup` finds the first index whose key is `k`.
proof fn lemma_field_lookup_of(fs: Seq<(Seq<char>, Seq<char>)>, k: Seq<char>, i: int)
    requires
        0 <= i <= fs.len(),
        forall|j: int| 0 <= j < i ==> #[trigger] fs[j].0 != k,
        i < fs.len() ==> fs[i].0 == k,
    ensures
        field_lookup(fs, k) == if i < fs.len() {
            Some(fs[i].1)
        } else {
            None::<Seq<char>>
        },
    decreases fs.len(),
{
    if fs.len() == 0 {
    } else if fs[0].0 == k {
        assert(i == 0);
    } else {
        assert(i >= 1);
        assert forall|j: int| 0 <= j < i - 1 implies #[trigger] fs.drop_first()[j].0 != k by {
            assert(fs.drop_first()[j] == fs[j + 1]);
        }
        if i - 1 < fs.drop_first().len() {
            assert(fs.drop_first()[i - 1] == fs[i]);
        }
        lemma_field_lookup_of(fs.drop_first(), k, i - 1);
    }
}

/// Looks a field up by key, returning a copy of its value.
fn find_field(fields: &Vec<(String, String)>, k: &str) -> (r: Option<String>)
    ensures
        match r {
            Some(v) => field_lookup(fields_v(fields@), k@) == Some(v@),
            None => field_lookup(fields_v(fields@), k@) is None,
        },
{
    let mut i: usize = 0;
    while i < fields.len()
        invariant
            i <= fields@.len(),
            forall|j: int| 0 <= j < i ==> #[trigger] fields_v(fields@)[j].0 != k@,
        decreases fields@.len() - i,
    {
        if str_eq(fields[i].0.as_str(), k) {
            proof {
                assert(fields_v(fields@)[i as int].0 == k@);
                lemma_field_lookup_of(fields_v(fields@), k@, i as int);
            }
            return Some(fields[i].1.clone());
        }
        proof {
            assert(fields_v(fields@)[i as int].0 == fields@[i as int].0@);
        }
        i += 1;
    }
    proof {
        lemma_field_lookup_of(fields_v(fields@), k@, fields@.len() as int);
    }
    None
}

/// A key the realm grammar knows.
pub open spec fn is_known_key(k: Seq<char>) -> bool {
    k == "transport"@ || k == "prefix"@ || k == "contains"@ || k == "access_key"@ || k
        == "secret_access_key"@ || k == "bucket"@ || k == "region"@ || k == "endpoint"@
}

/// Every field of the section uses a known key.
pub open spec fn fields_known(fs: Seq<(Seq<char>, Seq<char>)>) -> bool {
    forall|i: int| 0 <= i < fs.len() ==> is_known_key(#[trigger] fs[i].0)
}

/// Executable check for `is_known_key`.
fn known_key(k: &str) -> (r: bool)
    ensures
        r == is_known_key(k@),
{
    str_eq(k, "transport") || str_eq(k, "prefix") || str_eq(k, "contains") || str_eq(
        k,
        "access_key",
    ) || str_eq(k, "secret_access_key") || str_eq(k, "bucket") || str_eq(k, "region") || str_eq(
        k,
        "endpoint",
    )
}

/// Executable check for `fields_known`.
fn check_fields_known(fields: &Vec<(String, String)>) -> (r: bool)
    ensures
        r == fields_known(fields_v(fields@)),
{
    let mut i: usize = 0;
    while i < fields.len()
        invariant
            i <= fields@.len(),
            forall|j: int| 0 <= j < i ==> is_known_key(#[trigger] fields_v(fields@)[j].0),
        decreases fields@.len() - i,
    {
        if !known_key(fields[i].0.as_str()) {
            proof {
                assert(fields_v(fields@)[i as int].0 == fields@[i as int].0@);
            }
            return false;
        }
        proof {
            assert(fields_v(fields@)[i as int].0 == fields@[i as int].0@);
        }
        i += 1;
    }
    true
}

/// A field value, or the empty string when absent.
pub open spec fn or_empty(o: Option<Seq<char>>) -> Seq<char> {
    match o {
        Some(s) => s,
        None => Seq::<char>::empty(),
    }
}

/// The realm a section's fields denote.
pub open spec fn mk_realm_v(fs: Seq<(Seq<char>, Seq<char>)>, region: RegionV) -> RealmV {
    RealmV {
        prefix: or_empty(field_lookup(fs, "prefix"@)),
        contains: or_empty(field_lookup(fs, "contains"@)),
        location: LocationV::S3 {
            access_key: or_empty(field_lookup(fs, "access_key"@)),
            secret_access_key: or_empty(field_lookup(fs, "secret_access_key"@)),
            bucket: or_empty(field_lookup(fs, "bucket"@)),
            region,
        },
    }
}

/// What a section's fields load to: the object-store transport with its
/// required credentials and exactly one of a region or an endpoint, or
/// nothing when a required field is missing, a key is unknown, or the
/// transport is not the object-store one.
pub open spec fn realm_of_fields(fs: Seq<(Seq<char>, Seq<char>)>) -> Option<RealmV> {
    if field_lookup(fs, "transport"@) == Some("S3"@) && fields_known(fs) && field_lookup(
        fs,
        "access_key"@,
    ) is Some && field_lookup(fs, "secret_access_key"@) is Some && field_lookup(fs, "bucket"@)
        is Some {
        match (field_lookup(fs, "region"@), field_lookup(fs, "endpoint"@)) {
            (Some(r), None) => Some(mk_realm_v(fs, RegionV::Region(r))),
            (None, Some(u)) => Some(mk_realm_v(fs, RegionV::Endpoint(u))),
            _ => None,
        }
    } else {
        None
    }
}

/// Builds the realm a section denotes.
fn build_realm(fields: &Vec<(String, String)>) -> (r: Option<Realm>)
    ensures
        match r {
            Some(rm) => realm_of_fields(fields_v(fields@)) == Some(rm@),
            None => realm_of_fields(fields_v(fields@)) is None,
        },
{
    let transport = match find_field(fields, "transport") {
        Some(t) => t,
        None => {
            return None;
        },
    };
    if !str_eq(transport.as_str(), "S3") {
        return None;
    }
    if !check_fields_known(fields) {
        return None;
    }
    let access_key = match find_field(fields, "access_key") {
        Some(v) => v,
        None => {
            return None;
        },
    };
    let secret_access_key = match find_field(fields, "secret_access_key") {
        Some(v) => v,
        None => {
            return None;
        },
    };
    let bucket = match find_field(fields, "bucket") {
        Some(v) => v,
        None => {
            return None;
        },
    };
    let region = match (find_field(fields, "region"), find_field(fields, "endpoint")) {
        (Some(r), None) => S3Region::Region(r),
        (None, Some(u)) => S3Region::Endpoint(u),
        _ => {
            return None;
        },
    };
    let prefix = match find_field(fields, "prefix") {
        Some(v) => v,
        None => String::new(),
    };
    let contains = match find_field(fields, "contains") {
        Some(v) => v,
        None => String::new(),
    };
    Some(
        Realm {
            prefix,
            contains,
            location: RealmLocation::S3 { access_key, secret_access_key, bucket, region },
        },
    )
}

/// The parser's state between lines: the finished realms, and the open
/// section's name and fields, if one is open.
pub struct PStateV {
    pub done: Seq<(Seq<char>, RealmV)>,
    pub cur: Option<(Seq<char>, Seq<(Seq<char>, Seq<char>)>)>,
}

/// The state before any line.
pub open spec fn init_state() -> PStateV {
    PStateV { done: Seq::empty(), cur: None }
}

/// Some realm in `s` already has name `n`.
pub open spec fn name_taken(s: Seq<(Seq<char>, RealmV)>, n: Seq<char>) -> bool {
    exists|i: int| 0 <= i < s.len() && #[trigger] s[i].0 == n
}

/// All realm names in `s` are distinct.
pub open spec fn unique_names(s: Seq<(Seq<char>, RealmV)>) -> bool {
    forall|i: int, j: int| 0 <= i < j < s.len() ==> s[i].0 != s[j].0
}

/// Closes the open section, if any: its fields must denote a realm and
/// its name must be new.
pub open spec fn flush(st: PStateV) -> Option<Seq<(Seq<char>, RealmV)>> {
    match st.cur {
        None => Some(st.done),
        Some((name, fields)) => match realm_of_fields(fields) {
            None => None,
            Some(rv) => if name_taken(st.done, name) {
                None
            } else {
                Some(st.done.push((name, rv)))
            },
        },
    }
}

/// One line's effect on the parser state.
pub open spec fn step(st: PStateV, line: LineV) -> Option<PStateV> {
    match line {
        LineV::Blank => Some(st),
        LineV::Bad => None,
        LineV::RealmsHeader => match flush(st) {
            None => None,
            Some(d) => Some(PStateV { done: d, cur: None }),
        },
        LineV::RealmHeader(n) => match flush(st) {
            None => None,
            Some(d) => Some(PStateV { done: d, cur: Some((n, Seq::empty())) }),
        },
        LineV::Assign(k, v) => match st.cur {
            None => None,
            Some((n, fields)) => if field_lookup(fields, k) is Some {
                None
            } else {
                Some(PStateV { done: st.done, cur: Some((n, fields.push((k, v)))) })
            },
        },
    }
}

/// Runs the parser over the remaining lines.
pub open spec fn run(lines: Seq<Seq<char>>, st: PStateV) -> Option<PStateV>
    decreases lines.len(),
{
    if lines.len() == 0 {
        Some(st)
    } else {
        match step(st, classify(lines[0])) {
            None => None,
            Some(st2) => run(lines.drop_first(), st2),
        }
    }
}

/// What a whole configuration text loads to: the realm table, or nothing
/// when the text does not match the grammar.
pub open spec fn spec_load(text: Seq<char>) -> Option<Seq<(Seq<char>, RealmV)>> {
    match run(spec_lines(text), init_state()) {
        None => None,
        Some(st) => flush(st),
    }
}

/// LAW: loading is deterministic. The same configuration text always
/// loads to the same realm table, so parsing identical text twice yields
/// structurally equal results.
pub proof fn lemma_load_deterministic(t1: Seq<char>, t2: Seq<char>)
    requires
        t1 == t2,
    ensures
        spec_load(t1) == spec_load(t2),
{
}

/// Is some finished realm already named `name`?
fn name_exists(done: &Vec<(String, Realm)>, name: &str) -> (r: bool)
    ensures
        r == name_taken(realms_v(done@), name@),
{
    let mut i: usize = 0;
    while i < done.len()
        invariant
            i <= done@.len(),
            forall|j: int| 0 <= j < i ==> #[trigger] realms_v(done@)[j].0 != name@,
        decreases done@.len() - i,
    {
        if str_eq(done[i].0.as_str(), name) {
            proof {
                assert(realms_v(done@)[i as int].0 == name@);
            }
            return true;
        }
        proof {
            assert(realms_v(done@)[i as int].0 == done@[i as int].0@);
        }
        i += 1;
    }
    false
}

/// Closes the open section: builds its realm and appends it under its
/// name, refusing unknown shapes and duplicate names.
fn flush_cur(done: Vec<(String, Realm)>, name: String, fields: Vec<(String, String)>) -> (r:
    Option<Vec<(String, Realm)>>)
    ensures
        match r {
            Some(d2) => flush(
                PStateV { done: realms_v(done@), cur: Some((name@, fields_v(fields@))) },
            ) == Some(realms_v(d2@)),
            None => flush(
                PStateV { done: realms_v(done@), cur: Some((name@, fields_v(fields@))) },
            ) is None,
        },
{
    let realm = match build_realm(&fields) {
        Some(r) => r,
        None => {
            return None;
        },
    };
    if name_exists(&done, name.as_str()) {
        return None;
    }
    let ghost old_done = done@;
    let mut d2 = done;
    proof {
        assert(realms_v(old_done.push((name, realm))) =~= realms_v(old_done).push(
            (name@, realm@),
        ));
    }
    d2.push((name, realm));
    Some(d2)
}

impl RealmsConfig {
    /// Parses configuration text into the realm table. Succeeds with the
    /// table the grammar assigns to the text — with unique realm names —
    /// exactly when the text matches the grammar, and fails with a parse
    /// error otherwise.
    #[verifier::loop_isolation(false)]
    pub fn from_toml(text: &str) -> (r: Result<RealmsConfig, Error>)
        ensures
            match r {
                Ok(c) => spec_load(text@) == Some(c@) && c.wf(),
                Err(e) => spec_load(text@) is None && e is ConfigParse,
            },
    {
        let lines = split_lines(text);
        let nlines = lines.len();
        let mut done: Vec<(String, Realm)> = Vec::new();
        let mut cur_name: String = String::new();
        let mut cur_fields: Vec<(String, String)> = Vec::new();
        let mut has_cur: bool = false;
        let mut i: usize = 0;
        proof {
            assert(realms_v(done@) =~= Seq::<(Seq<char>, RealmV)>::empty());
            assert(lines_v(lines@).skip(0) =~= lines_v(lines@));
        }
        while i < nlines
            invariant
                i <= nlines,
                run(lines_v(lines@).skip(i as int), cur_state(done@, has_cur, cur_name@, cur_fields@))
                    == run(spec_lines(text@), init_state()),
                unique_names(realms_v(done@)),
            decreases nlines - i,
        {
            let ghost st = cur_state(done@, has_cur, cur_name@, cur_fields@);
            let ghost rest = lines_v(lines@).skip(i as int);
            proof {
                assert(rest[0] == lines@[i as int]@);
                assert(rest.drop_first() =~= lines_v(lines@).skip(i + 1));
            }
            let kind = classify_line(lines[i].as_str());
            match kind {
                LineKind::Blank => {},
                LineKind::Bad => {
                    return Err(Error::ConfigParse);
                },
                LineKind::RealmsHeader => {
                    if has_cur {
                        let d2 = match flush_cur(done, cur_name, cur_fields) {
                            Some(d) => d,
                            None => {
                                return Err(Error::ConfigParse);
                            },
                        };
                        done = d2;
                        cur_name = String::new();
                        cur_fields = Vec::new();
                        has_cur = false;
                        proof {
                            lemma_flush_unique(st, realms_v(done@));
                        }
                    }
                },
                LineKind::RealmHeader(n) => {
                    if has_cur {
                        let d2 = match flush_cur(done, cur_name, cur_fields) {
                            Some(d) => d,
                            None => {
                                return Err(Error::ConfigParse);
                            },
                        };
                        done = d2;
                        cur_fields = Vec::new();
                        proof {
                            lemma_flush_unique(st, realms_v(done@));
                        }
                    }
                    cur_name = n;
                    cur_fields = Vec::new();
                    has_cur = true;
                    proof {
                        assert(fields_v(cur_fields@) =~= Seq::<(Seq<char>, Seq<char>)>::empty());
                    }
                },
                LineKind::Assign(k, v) => {
                    if !has_cur {
                        return Err(Error::ConfigParse);
                    }
                    match find_field(&cur_fields, k.as_str()) {
                        Some(_) => {
                            return Err(Error::ConfigParse);
                        },
                        None => {},
                    }
                    let ghost old_fields = cur_fields@;
                    proof {
                        assert(fields_v(old_fields.push((k, v))) =~= fields_v(old_fields).push(
                            (k@, v@),
                        ));
                    }
                    cur_fields.push((k, v));
                },
            }
            i += 1;
        }
        proof {
            assert(lines_v(lines@).skip(nlines as int) =~= Seq::<Seq<char>>::empty());
        }
        if has_cur {
            let ghost st = cur_state(done@, has_cur, cur_name@, cur_fields@);
            let d2 = match flush_cur(done, cur_name, cur_fields) {
                Some(d) => d,
                None => {
                    return Err(Error::ConfigParse);
                },
            };
            done = d2;
            proof {
                lemma_flush_unique(st, realms_v(done@));
            }
        }
        let c = RealmsConfig { realms: done };
        proof {
            assert(c.wf());
        }
        Ok(c)
    }
}

/// The parser state the executable variables stand for.
pub open spec fn cur_state(
    done: Seq<(String, Realm)>,
    has_cur: bool,
    cur_name: Seq<char>,
    cur_fields: Seq<(String, String)>,
) -> PStateV {
    PStateV {
        done: realms_v(done),
        cur: if has_cur {
            Some((cur_name, fields_v(cur_fields)))
        } else {
            None
        },
    }
}

/// A successful flush keeps realm names unique.
proof fn lemma_flush_unique(st: PStateV, d: Seq<(Seq<char>, RealmV)>)
    requires
        flush(st) == Some(d),
        unique_names(st.done),
    ensures
        unique_names(d),
{
    match st.cur {
        None => {},
        Some((name, fields)) => {
            assert forall|i: int, j: int| 0 <= i < j < d.len() implies d[i].0 != d[j].0 by {
                if j == d.len() - 1 && d.len() == st.done.len() + 1 {
                    assert(!name_taken(st.done, name));
                    assert(st.done[i].0 != name);
                }
            }
        },
    }
}

} // verus!

