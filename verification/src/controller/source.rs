//! Handling shared by the configuration and override pages: the source type, checks on
//! source addresses and content, and the names derived from an address.
use vstd::prelude::*;
use vstd::string::*;
use crate::app::config::SourceType;
use crate::json::{Json, JsonValue};
use crate::clash::documents::{yaml_document, parse_yaml_document};
use crate::text::{chars_of, is_space_char, trimmed, trim_bounds, trim_text, string_from_chars, push_char, push_text,
    push_decimal, decimal, join_with};

verus! {

/// The source type named in a form: exactly `http` or `file`.
pub open spec fn source_type_named(value: Seq<char>) -> Option<SourceType> {
    if value == "http"@ {
        Some(SourceType::Http)
    } else if value == "file"@ {
        Some(SourceType::File)
    } else {
        None
    }
}

/// The source type named in a form; any other text is refused.
pub fn parse_source_type(value: &str) -> (r: Result<SourceType, String>)
    ensures
        match source_type_named(value@) {
            Some(t) => r == Ok::<SourceType, String>(t),
            None => r is Err && r->Err_0@ == "配置类型必须是 http 或 file"@,
        },
{
    if crate::text::text_eq(value, "http") {
        Ok(SourceType::Http)
    } else if crate::text::text_eq(value, "file") {
        Ok(SourceType::File)
    } else {
        Err(String::from_str("配置类型必须是 http 或 file"))
    }
}

/// The name under which a source type is shown and stored.
pub open spec fn source_type_text(t: SourceType) -> Seq<char> {
    match t {
        SourceType::Http => "http"@,
        SourceType::File => "file"@,
    }
}

/// The name under which a source type is shown and stored.
pub fn source_type_name(source_type: SourceType) -> (r: &'static str)
    ensures
        r@ == source_type_text(source_type),
{
    match source_type {
        SourceType::Http => "http",
        SourceType::File => "file",
    }
}

/// Entry `e` (internal path, source address) clashes with a new address: it is not the
/// entry being edited, and its address equals the new one once both are trimmed.
pub open spec fn clashes(e: (Seq<char>, Seq<char>), editing_path: Seq<char>, source_uri: Seq<char>) -> bool {
    !(editing_path.len() > 0 && e.0 == editing_path) && trimmed(e.1) == trimmed(source_uri)
}

/// Checks that no other entry of the same page already uses the address; the entry whose
/// path is `editing_path` (when not empty) is the one being edited and does not count.
pub fn ensure_unique_source_uri(
    entries: &[(&str, &str)],
    editing_path: &str,
    source_uri: &str,
    item_label: &str,
) -> (r: Result<(), String>)
    ensures
        r is Err <==> exists|i: int| 0 <= i < entries@.len()
            && clashes((entries@[i].0@, entries@[i].1@), editing_path@, source_uri@),
        r is Err ==> r->Err_0@ == item_label@ + "源地址已存在"@,
{
    let wanted = trim_text(source_uri);
    let editing = chars_of(editing_path);
    let mut i: usize = 0;
    while i < entries.len()
        invariant
            i <= entries@.len(),
            wanted@ == trimmed(source_uri@),
            editing@ == editing_path@,
            forall|j: int| 0 <= j < i ==> !clashes((entries@[j].0@, entries@[j].1@), editing_path@, source_uri@),
        decreases entries@.len() - i,
    {
        let (path, existing) = entries[i];
        let is_current = editing.len() > 0 && crate::text::text_eq(path, editing_path);
        if !is_current {
            let t = trim_text(existing);
            if t == wanted {
                let mut message = String::from_str(item_label);
                message.append("源地址已存在");
                return Err(message);
            }
        }
        i = i + 1;
    }
    Ok(())
}

/// The end of the part of `s` before the first `?` or `#`, searching from `i`.
pub open spec fn query_start_from(s: Seq<char>, i: int) -> int
    decreases s.len() - i,
{
    if i >= s.len() || i < 0 {
        s.len() as int
    } else if s[i] == '?' || s[i] == '#' {
        i
    } else {
        query_start_from(s, i + 1)
    }
}

/// The end of `s[..j]` once its trailing `/` are dropped.
pub open spec fn end_before_slashes(s: Seq<char>, j: int) -> int
    decreases j,
{
    if j > 0 && s[j - 1] == '/' { end_before_slashes(s, j - 1) } else { j }
}

/// The start of the last segment of `s[..j]`, segments being split at `/` and `\`.
pub open spec fn segment_start(s: Seq<char>, j: int) -> int
    decreases j,
{
    if j <= 0 {
        0
    } else if s[j - 1] == '/' || s[j - 1] == '\\' {
        j
    } else {
        segment_start(s, j - 1)
    }
}

/// The last path segment of an address, ignoring a query or fragment and trailing `/`,
/// trimmed.
pub open spec fn name_candidate(s: Seq<char>) -> Seq<char> {
    let q = query_start_from(s, 0);
    let e = end_before_slashes(s, q);
    trimmed(s.subrange(segment_start(s, e), e))
}

/// The name shown for a source without a name: the last segment of its address, or
/// `未命名配置` when that is empty.
pub open spec fn fallback_text(s: Seq<char>) -> Seq<char> {
    if name_candidate(s).len() == 0 { "未命名配置"@ } else { name_candidate(s) }
}

proof fn lemma_query_start(s: Seq<char>, i: int)
    requires
        0 <= i <= s.len(),
    ensures
        i <= query_start_from(s, i) <= s.len(),
    decreases s.len() - i,
{
    if i < s.len() && !(s[i] == '?' || s[i] == '#') {
        lemma_query_start(s, i + 1);
    }
}

proof fn lemma_end_before_slashes(s: Seq<char>, j: int)
    requires
        0 <= j <= s.len(),
    ensures
        0 <= end_before_slashes(s, j) <= j,
    decreases j,
{
    if j > 0 && s[j - 1] == '/' {
        lemma_end_before_slashes(s, j - 1);
    }
}

proof fn lemma_segment_start(s: Seq<char>, j: int)
    requires
        0 <= j <= s.len(),
    ensures
        0 <= segment_start(s, j) <= j,
    decreases j,
{
    if j > 0 && !(s[j - 1] == '/' || s[j - 1] == '\\') {
        lemma_segment_start(s, j - 1);
    }
}

/// The bounds `[b, e)` of the name candidate before trimming.
fn candidate_bounds(v: &Vec<char>) -> (r: (usize, usize))
    ensures
        r.0 <= r.1 <= v.len(),
        r.1 == end_before_slashes(v@, query_start_from(v@, 0)),
        r.0 == segment_start(v@, r.1 as int),
{
    let n = v.len();
    let mut q: usize = 0;
    while q < n && v[q] != '?' && v[q] != '#'
        invariant
            q <= n,
            n == v.len(),
            query_start_from(v@, 0) == query_start_from(v@, q as int),
        decreases n - q,
    {
        q = q + 1;
    }
    let mut e: usize = q;
    while e > 0 && v[e - 1] == '/'
        invariant
            e <= q <= n,
            n == v.len(),
            query_start_from(v@, 0) == q,
            end_before_slashes(v@, q as int) == end_before_slashes(v@, e as int),
        decreases e,
    {
        e = e - 1;
    }
    let mut b: usize = e;
    while b > 0 && v[b - 1] != '/' && v[b - 1] != '\\'
        invariant
            b <= e <= n,
            n == v.len(),
            segment_start(v@, e as int) == segment_start(v@, b as int),
        decreases b,
    {
        b = b - 1;
    }
    (b, e)
}

/// The name shown for a source without a name: the last segment of its address (without
/// query, fragment or trailing `/`, trimmed), or `未命名配置` when that is empty.
pub fn fallback_name(source_uri: &str) -> (r: String)
    ensures
        r@ == fallback_text(source_uri@),
{
    let v = chars_of(source_uri);
    let (b, e) = candidate_bounds(&v);
    let mut part: Vec<char> = Vec::new();
    let mut k: usize = b;
    while k < e
        invariant
            b <= k <= e <= v.len(),
            part@ == v@.subrange(b as int, k as int),
        decreases e - k,
    {
        part.push(v[k]);
        proof { assert(v@.subrange(b as int, k + 1) =~= v@.subrange(b as int, k as int).push(v@[k as int])); }
        k = k + 1;
    }
    let (x, y) = trim_bounds(&part);
    if x == y {
        return String::from_str("未命名配置");
    }
    let mut out = String::new();
    let mut t: usize = x;
    while t < y
        invariant
            x <= t <= y <= part.len(),
            out@ == part@.subrange(x as int, t as int),
        decreases y - t,
    {
        push_char(&mut out, part[t]);
        proof { assert(part@.subrange(x as int, t + 1) =~= part@.subrange(x as int, t as int).push(part@[t as int])); }
        t = t + 1;
    }
    out
}

/// Whether a character is alphanumeric by Unicode rules (`char::is_alphanumeric`).
pub uninterp spec fn alphanumeric(c: char) -> bool;

/// Whether a character is alphanumeric by Unicode rules.
///
/// Trusted: calls `char::is_alphanumeric`; the contract names its result, a function of
/// the character alone, and states that ASCII letters and digits are alphanumeric (they
/// are alphabetic or numeric, as the method's documentation defines it).
#[verifier::external_body]
fn is_alphanumeric(c: char) -> (r: bool)
    ensures
        r == alphanumeric(c),
        (('a' <= c && c <= 'z') || ('A' <= c && c <= 'Z') || ('0' <= c && c <= '9')) ==> r,
{
    c.is_alphanumeric()
}

/// An ASCII letter or digit.
pub open spec fn ascii_alnum(c: char) -> bool {
    ('a' <= c && c <= 'z') || ('A' <= c && c <= 'Z') || ('0' <= c && c <= '9')
}

/// A character kept in an internal file name: an alphanumeric one (ASCII letters and
/// digits among them) or one of `-`, `_`, `.`; any other becomes `_`.
pub open spec fn file_name_char(c: char) -> char {
    if ascii_alnum(c) || alphanumeric(c) || c == '-' || c == '_' || c == '.' { c } else { '_' }
}

/// The internal file name derived from an address: the fallback name with every other
/// character replaced by `_`; `source` when that is empty, `.` or `..`; and `.yaml` added
/// when it holds no `.`.
pub open spec fn safe_name_of(s: Seq<char>) -> Seq<char> {
    let n0 = fallback_text(s).map_values(|c: char| file_name_char(c));
    let n1 = if n0.len() == 0 || n0 == "."@ || n0 == ".."@ { "source"@ } else { n0 };
    if n1.contains('.') { n1 } else { n1 + ".yaml"@ }
}

/// The internal file name derived from a source address.
pub fn safe_file_name(source_uri: &str) -> (r: String)
    ensures
        r@ == safe_name_of(source_uri@),
{
    let candidate = fallback_name(source_uri);
    let cs = chars_of(candidate.as_str());
    let mut name: Vec<char> = Vec::new();
    let mut i: usize = 0;
    while i < cs.len()
        invariant
            i <= cs.len(),
            cs@ == fallback_text(source_uri@),
            name@ == cs@.subrange(0, i as int).map_values(|c: char| file_name_char(c)),
        decreases cs.len() - i,
    {
        let c = cs[i];
        let ascii = ('a' <= c && c <= 'z') || ('A' <= c && c <= 'Z') || ('0' <= c && c <= '9');
        let keep = ascii || is_alphanumeric(c) || c == '-' || c == '_' || c == '.';
        name.push(if keep { c } else { '_' });
        proof {
            assert(cs@.subrange(0, i + 1).map_values(|c: char| file_name_char(c))
                =~= cs@.subrange(0, i as int).map_values(|c: char| file_name_char(c)).push(file_name_char(c)));
        }
        i = i + 1;
    }
    proof { assert(cs@.subrange(0, cs.len() as int) =~= cs@); }
    let ghost n0 = name@;
    let is_dot = name.len() == 1 && name[0] == '.';
    let is_dot_dot = name.len() == 2 && name[0] == '.' && name[1] == '.';
    proof {
        reveal_strlit(".");
        reveal_strlit("..");
        if name.len() == 1 && name[0] == '.' { assert(n0 =~= "."@); }
        if name.len() == 2 && name[0] == '.' && name[1] == '.' { assert(n0 =~= ".."@); }
        if n0 == "."@ { assert(n0.len() == 1 && n0[0] == '.'); }
        if n0 == ".."@ { assert(n0.len() == 2 && n0[0] == '.' && n0[1] == '.'); }
    }
    let mut out = if name.len() == 0 || is_dot || is_dot_dot {
        String::from_str("source")
    } else {
        string_from_chars(&name)
    };
    let ghost n1 = out@;
    let oc = chars_of(out.as_str());
    let mut has_dot = false;
    let mut j: usize = 0;
    while j < oc.len()
        invariant
            j <= oc.len(),
            oc@ == n1,
            has_dot == exists|t: int| 0 <= t < j && oc@[t] == '.',
        decreases oc.len() - j,
    {
        if oc[j] == '.' {
            has_dot = true;
        }
        j = j + 1;
    }
    proof {
        if has_dot {
            let t = choose|t: int| 0 <= t < oc.len() && oc@[t] == '.';
            assert(n1[t] == '.');
        }
    }
    if !has_dot {
        out.append(".yaml");
    }
    out
}

/// An internal file name is never empty, holds only alphanumeric characters and `-`, `_`,
/// `.`, holds a `.`, and is neither `.` nor `..`: so it has no separator and cannot step
/// out of its directory.
pub proof fn law_safe_file_name_is_plain(s: Seq<char>)
    ensures
        safe_name_of(s).len() > 0,
        forall|i: int| 0 <= i < safe_name_of(s).len() ==> {
            let c = #[trigger] safe_name_of(s)[i];
            alphanumeric(c) || ascii_alnum(c) || c == '-' || c == '_' || c == '.'
        },
        safe_name_of(s).contains('.'),
        safe_name_of(s) != "."@,
        safe_name_of(s) != ".."@,
{
    reveal_strlit("source");
    reveal_strlit(".yaml");
    reveal_strlit(".");
    reveal_strlit("..");
    let n0 = fallback_text(s).map_values(|c: char| file_name_char(c));
    let n1 = if n0.len() == 0 || n0 == "."@ || n0 == ".."@ { "source"@ } else { n0 };
    assert forall|i: int| 0 <= i < n1.len() implies {
        let c = #[trigger] n1[i];
        alphanumeric(c) || ascii_alnum(c) || c == '-' || c == '_' || c == '.'
    } by {
        if !(n0.len() == 0 || n0 == "."@ || n0 == ".."@) {
            assert(n1[i] == file_name_char(fallback_text(s)[i]));
        }
    }
    if n1.contains('.') {
        let t = choose|t: int| 0 <= t < n1.len() && n1[t] == '.';
        assert(safe_name_of(s) == n1);
        assert(safe_name_of(s)[t] == '.');
        if n1 == "."@ || n1 == ".."@ {
            assert(n0 == n1);
            assert(false);
        }
    } else {
        let r = n1 + ".yaml"@;
        assert(safe_name_of(s) == r);
        assert forall|i: int| 0 <= i < r.len() implies {
            let c = #[trigger] r[i];
            alphanumeric(c) || ascii_alnum(c) || c == '-' || c == '_' || c == '.'
        } by {
            if i < n1.len() { assert(r[i] == n1[i]); }
        }
        assert(r[n1.len() as int] == '.');
        assert(r.len() >= 5);
    }
}

/// Checks that a source's content is not blank and parses as YAML with a mapping at its
/// root.
pub fn validate_yaml(content: &str) -> (r: Result<(), String>)
    ensures
        trimmed(content@).len() == 0 ==> r is Err && r->Err_0@ == "配置内容不能为空"@,
        trimmed(content@).len() > 0 ==> match yaml_document(content@) {
            Ok(Json::Object(_)) => r is Ok,
            Ok(_) => r is Err && r->Err_0@ == "配置内容必须是 YAML 对象"@,
            Err(e) => r is Err && r->Err_0@ == "YAML 解析失败："@ + e,
        },
{
    let t = trim_text(content);
    if t.as_str().unicode_len() == 0 {
        return Err(String::from_str("配置内容不能为空"));
    }
    let shape = match parse_yaml_document(content) {
        Ok(doc) => Ok(matches!(doc, JsonValue::Object(_))),
        Err(e) => Err(e),
    };
    yaml_verdict(shape)
}

/// The verdict on a parsed source: a mapping at the root passes, any other root is
/// refused, and a parse error is reported with its text.
pub fn yaml_verdict(shape: Result<bool, String>) -> (r: Result<(), String>)
    ensures
        match shape {
            Ok(true) => r is Ok,
            Ok(false) => r is Err && r->Err_0@ == "配置内容必须是 YAML 对象"@,
            Err(e) => r is Err && r->Err_0@ == "YAML 解析失败："@ + e@,
        },
{
    match shape {
        Ok(true) => Ok(()),
        Ok(false) => Err(String::from_str("配置内容必须是 YAML 对象")),
        Err(error) => {
            let mut message = String::from_str("YAML 解析失败：");
            message.append(error.as_str());
            Err(message)
        },
    }
}

/// The position of the last `.` in a name, or -1.
pub open spec fn last_dot(s: Seq<char>) -> int
    decreases s.len(),
{
    if s.len() == 0 {
        -1
    } else if s.last() == '.' {
        s.len() - 1
    } else {
        last_dot(s.drop_last())
    }
}

/// The stem and extension of a plain file name, as `Path::file_stem` and
/// `Path::extension` split it: at the last `.`, unless that is the first character;
/// with no extension, `yaml`.
pub open spec fn stem_and_extension(name: Seq<char>) -> (Seq<char>, Seq<char>) {
    let i = last_dot(name);
    if i > 0 {
        (name.subrange(0, i), name.subrange(i + 1, name.len() as int))
    } else {
        (name, "yaml"@)
    }
}

/// The name of the `index`-th candidate for an internal copy of a source: the safe file
/// name first, then `stem-index.extension`.
pub open spec fn copy_name_of(source_uri: Seq<char>, index: u64) -> Seq<char> {
    let base = safe_name_of(source_uri);
    if index == 0 {
        base
    } else {
        let (stem, ext) = stem_and_extension(base);
        stem + "-"@ + decimal(index as nat) + "."@ + ext
    }
}

/// The file name of the `index`-th candidate for an internal copy of a source; the
/// caller tries 0, 1, 2, ... until a name is free.
pub fn copy_file_name(source_uri: &str, index: u64) -> (r: String)
    ensures
        r@ == copy_name_of(source_uri@, index),
{
    let base = safe_file_name(source_uri);
    if index == 0 {
        return base;
    }
    let cs = chars_of(base.as_str());
    let mut i: usize = cs.len();
    proof { assert(cs@.subrange(0, i as int) =~= cs@); }
    while i > 0 && cs[i - 1] != '.'
        invariant
            i <= cs.len(),
            last_dot(cs@) == last_dot(cs@.subrange(0, i as int)),
        decreases i,
    {
        proof { assert(cs@.subrange(0, i as int).drop_last() =~= cs@.subrange(0, i - 1)); }
        i = i - 1;
    }
    let ghost dot = last_dot(cs@);
    proof {
        if i > 0 {
            assert(cs@.subrange(0, i as int).last() == '.');
            assert(dot == i - 1);
        } else {
            assert(cs@.subrange(0, 0).len() == 0);
            assert(dot == -1);
        }
    }
    let mut out = String::new();
    if i > 1 {
        let mut k: usize = 0;
        while k < i - 1
            invariant
                k <= i - 1,
                i <= cs.len(),
                out@ == cs@.subrange(0, k as int),
            decreases i - 1 - k,
        {
            push_char(&mut out, cs[k]);
            proof { assert(out@ =~= cs@.subrange(0, k + 1)); }
            k = k + 1;
        }
        push_text(&mut out, "-");
        push_decimal(&mut out, index);
        push_text(&mut out, ".");
        let mut k: usize = i;
        let ghost pre = out@;
        while k < cs.len()
            invariant
                i <= k <= cs.len(),
                out@ == pre + cs@.subrange(i as int, k as int),
            decreases cs.len() - k,
        {
            push_char(&mut out, cs[k]);
            proof { assert(out@ =~= pre + cs@.subrange(i as int, k + 1)); }
            k = k + 1;
        }
        proof {
            assert(out@ =~= copy_name_of(source_uri@, index));
        }
    } else {
        push_text(&mut out, base.as_str());
        push_text(&mut out, "-");
        push_decimal(&mut out, index);
        push_text(&mut out, ".");
        push_text(&mut out, "yaml");
        proof {
            assert(out@ =~= copy_name_of(source_uri@, index));
        }
    }
    out
}

/// Some entry other than the one being edited already uses the address.
pub open spec fn uri_taken(entries: Seq<(&str, &str)>, editing_path: Seq<char>, source_uri: Seq<char>) -> bool {
    exists|i: int| 0 <= i < entries.len() && clashes((entries[i].0@, entries[i].1@), editing_path, source_uri)
}

/// What the add or edit form of a page gives before anything is read: the source type
/// (as `parse_source_type` reads it), and the trimmed address, which must not be empty
/// and must not be used by another entry of the page (see `ensure_unique_source_uri`).
pub open spec fn source_form(source_type: Seq<char>, source_uri: Seq<char>, entries: Seq<(&str, &str)>, editing_path: Seq<char>, item_label: Seq<char>) -> Result<(SourceType, Seq<char>), Seq<char>> {
    match source_type_named(source_type) {
        None => Err("配置类型必须是 http 或 file"@),
        Some(t) => if trimmed(source_uri).len() == 0 {
            Err("源地址不能为空"@)
        } else if uri_taken(entries, editing_path, trimmed(source_uri)) {
            Err(item_label + "源地址已存在"@)
        } else {
            Ok((t, trimmed(source_uri)))
        },
    }
}

/// Checks the add or edit form of a page and returns the source type and the trimmed
/// address.
pub fn check_source_form(
    source_type: &str,
    source_uri: &str,
    entries: &[(&str, &str)],
    editing_path: &str,
    item_label: &str,
) -> (r: Result<(SourceType, String), String>)
    ensures
        match source_form(source_type@, source_uri@, entries@, editing_path@, item_label@) {
            Ok((t, u)) => r is Ok && r->Ok_0.0 == t && r->Ok_0.1@ == u,
            Err(e) => r is Err && r->Err_0@ == e,
        },
{
    let t = match parse_source_type(source_type) {
        Ok(t) => t,
        Err(e) => return Err(e),
    };
    let uri = trim_text(source_uri);
    if uri.as_str().is_empty() {
        return Err(String::from_str("源地址不能为空"));
    }
    match ensure_unique_source_uri(entries, editing_path, uri.as_str(), item_label) {
        Ok(()) => {}
        Err(e) => return Err(e),
    }
    Ok((t, uri))
}

// ---------------------------------------------------------------------------
// Paths of the internal copies

/// A character that separates the segments of a path: `/`, or `\` as Windows reads it.
pub open spec fn path_separator(c: char) -> bool {
    c == '/' || c == '\\'
}

/// The segments of a path, split at every separator (empty segments included).
pub open spec fn path_segments(s: Seq<char>) -> Seq<Seq<char>>
    decreases s.len(),
{
    if s.len() == 0 {
        seq![Seq::empty()]
    } else {
        let f = path_segments(s.drop_last());
        if path_separator(s.last()) {
            f.push(Seq::empty())
        } else {
            f.update(f.len() - 1, f.last().push(s.last()))
        }
    }
}

proof fn lemma_path_segments_nonempty(s: Seq<char>)
    ensures
        path_segments(s).len() >= 1,
    decreases s.len(),
{
    if s.len() > 0 {
        lemma_path_segments_nonempty(s.drop_last());
    }
}

/// The texts of a list of character vectors.
pub open spec fn char_rows(v: Seq<Vec<char>>) -> Seq<Seq<char>> {
    v.map_values(|x: Vec<char>| x@)
}

/// A segment that names a step of the path: neither empty nor `.`.
pub open spec fn named_segment(p: Seq<char>) -> bool {
    p.len() > 0 && p != seq!['.']
}

/// The steps of a relative path: its segments without the empty ones and `.`.
pub open spec fn path_parts(s: Seq<char>) -> Seq<Seq<char>> {
    path_segments(s).filter(|p: Seq<char>| named_segment(p))
}

/// A path that starts with a drive (`C:` and the like).
pub open spec fn drive_prefix(s: Seq<char>) -> bool {
    s.len() >= 2 && s[1] == ':' && (('A' <= s[0] && s[0] <= 'Z') || ('a' <= s[0] && s[0] <= 'z'))
}

/// A path that may not name an internal file or directory: it starts at a root (a
/// separator), at a drive, or with the current directory (`.` alone or followed by a
/// separator), or one of its segments steps up (`..`).
pub open spec fn path_unsafe(s: Seq<char>) -> bool {
    ||| (s.len() > 0 && path_separator(s[0]))
    ||| drive_prefix(s)
    ||| (s.len() > 0 && s[0] == '.' && (s.len() == 1 || path_separator(s[1])))
    ||| path_segments(s).contains(seq!['.', '.'])
}

/// `rel` appended to `root`, with one `/` between them where `root` is not empty and does
/// not end with one.
pub open spec fn joined(root: Seq<char>, rel: Seq<char>) -> Seq<char> {
    if root.len() == 0 || root.last() == '/' { root + rel } else { root + seq!['/'] + rel }
}

/// What resolving an internal directory under `root` gives: the joined path, or why the
/// directory is refused.
pub open spec fn directory_result(root: Seq<char>, directory: Seq<char>) -> Result<Seq<char>, Seq<char>> {
    if path_unsafe(directory) {
        Err("内部目录路径不安全"@)
    } else if path_parts(directory).len() == 0 {
        Err("内部目录必须位于运行时根目录下"@)
    } else {
        Ok(joined(root, directory))
    }
}

/// `a` is where `b` starts.
pub open spec fn parts_prefix(a: Seq<Seq<char>>, b: Seq<Seq<char>>) -> bool {
    a.len() <= b.len() && b.subrange(0, a.len() as int) == a
}

/// What checking a relative path of an internal file in `directory` gives: the joined
/// path, or why it is refused. A file must lie strictly inside its directory.
pub open spec fn internal_path_result(root: Seq<char>, directory: Seq<char>, relative: Seq<char>) -> Result<Seq<char>, Seq<char>> {
    if path_unsafe(relative) {
        Err("内部文件路径不安全"@)
    } else {
        match directory_result(root, directory) {
            Err(e) => Err(e),
            Ok(d) => if !parts_prefix(path_parts(directory), path_parts(relative))
                || path_parts(relative) == path_parts(directory) {
                Err("内部文件路径必须位于 "@ + d + " 下"@)
            } else {
                Ok(joined(root, relative))
            },
        }
    }
}

fn split_path(value: &str) -> (r: Vec<Vec<char>>)
    ensures
        char_rows(r@) == path_segments(value@),
{
    let cs = chars_of(value);
    split_segments(&cs)
}

fn chars_equal(a: &Vec<char>, b: &Vec<char>) -> (r: bool)
    ensures
        r == (a@ == b@),
{
    if a.len() != b.len() {
        return false;
    }
    let mut i: usize = 0;
    while i < a.len()
        invariant
            i <= a@.len(),
            a@.len() == b@.len(),
            forall|j: int| 0 <= j < i ==> a@[j] == b@[j],
        decreases a@.len() - i,
    {
        if a[i] != b[i] {
            return false;
        }
        i = i + 1;
    }
    proof { assert(a@ =~= b@); }
    true
}

fn is_named_segment(p: &Vec<char>) -> (r: bool)
    ensures
        r == named_segment(p@),
{
    if p.len() == 0 {
        return false;
    }
    if p.len() == 1 && p[0] == '.' {
        proof { assert(p@ =~= seq!['.']); }
        return false;
    }
    proof { assert(p@ != seq!['.']) by { if p@ == seq!['.'] { assert(p@.len() == 1); } } }
    true
}

fn named_parts(rows: &Vec<Vec<char>>) -> (r: Vec<Vec<char>>)
    ensures
        char_rows(r@) == char_rows(rows@).filter(|p: Seq<char>| named_segment(p)),
{
    let ghost pred = |p: Seq<char>| named_segment(p);
    let ghost rv = char_rows(rows@);
    let mut out: Vec<Vec<char>> = Vec::new();
    let mut i: usize = 0;
    while i < rows.len()
        invariant
            i <= rows@.len(),
            rv == char_rows(rows@),
            pred == (|p: Seq<char>| named_segment(p)),
            char_rows(out@) == rv.subrange(0, i as int).filter(pred),
        decreases rows@.len() - i,
    {
        proof {
            assert(rv.subrange(0, i + 1) =~= rv.subrange(0, i as int).push(rv[i as int]));
            rv.subrange(0, i as int).lemma_filter_push(rv[i as int], pred);
        }
        if is_named_segment(&rows[i]) {
            let ghost before = out@;
            out.push(rows[i].clone());
            proof { assert(char_rows(out@) =~= char_rows(before).push(rv[i as int])); }
        }
        i = i + 1;
    }
    proof { assert(rv.subrange(0, rv.len() as int) =~= rv); }
    out
}

fn has_parent_step(rows: &Vec<Vec<char>>) -> (r: bool)
    ensures
        r == char_rows(rows@).contains(seq!['.', '.']),
{
    let ghost rv = char_rows(rows@);
    let mut i: usize = 0;
    while i < rows.len()
        invariant
            i <= rows@.len(),
            rv == char_rows(rows@),
            forall|j: int| 0 <= j < i ==> rv[j] != seq!['.', '.'],
        decreases rows@.len() - i,
    {
        let p = &rows[i];
        if p.len() == 2 && p[0] == '.' && p[1] == '.' {
            proof { assert(rv[i as int] =~= seq!['.', '.']); }
            return true;
        }
        proof {
            assert(rv[i as int] != seq!['.', '.']) by {
                if rv[i as int] == seq!['.', '.'] { assert(p@.len() == 2 && p@[0] == '.' && p@[1] == '.'); }
            }
        }
        i = i + 1;
    }
    proof {
        if rv.contains(seq!['.', '.']) {
            let j = choose|j: int| 0 <= j < rv.len() && rv[j] == seq!['.', '.'];
            assert(rv[j] == seq!['.', '.']);
        }
    }
    false
}

fn parts_start_with(whole: &Vec<Vec<char>>, start: &Vec<Vec<char>>) -> (r: bool)
    ensures
        r == parts_prefix(char_rows(start@), char_rows(whole@)),
{
    let ghost wv = char_rows(whole@);
    let ghost sv = char_rows(start@);
    if start.len() > whole.len() {
        return false;
    }
    let mut i: usize = 0;
    while i < start.len()
        invariant
            i <= start@.len() <= whole@.len(),
            wv == char_rows(whole@),
            sv == char_rows(start@),
            forall|j: int| 0 <= j < i ==> wv[j] == sv[j],
        decreases start@.len() - i,
    {
        if !chars_equal(&whole[i], &start[i]) {
            proof { assert(wv.subrange(0, sv.len() as int)[i as int] != sv[i as int]); }
            return false;
        }
        i = i + 1;
    }
    proof { assert(wv.subrange(0, sv.len() as int) =~= sv); }
    true
}

fn parts_equal(a: &Vec<Vec<char>>, b: &Vec<Vec<char>>) -> (r: bool)
    ensures
        r == (char_rows(a@) == char_rows(b@)),
{
    let ghost av = char_rows(a@);
    let ghost bv = char_rows(b@);
    if a.len() != b.len() {
        proof { assert(av.len() != bv.len()); }
        return false;
    }
    let mut i: usize = 0;
    while i < a.len()
        invariant
            i <= a@.len(),
            a@.len() == b@.len(),
            av == char_rows(a@),
            bv == char_rows(b@),
            forall|j: int| 0 <= j < i ==> av[j] == bv[j],
        decreases a@.len() - i,
    {
        if !chars_equal(&a[i], &b[i]) {
            proof { assert(av[i as int] != bv[i as int]); }
            return false;
        }
        i = i + 1;
    }
    proof { assert(av =~= bv); }
    true
}

/// Whether a path may not name an internal file or directory, as `path_unsafe` says.
pub fn is_unsafe_path(value: &str) -> (r: bool)
    ensures
        r == path_unsafe(value@),
{
    let cs = chars_of(value);
    if cs.len() > 0 && (cs[0] == '/' || cs[0] == '\\') {
        return true;
    }
    if cs.len() >= 2 && cs[1] == ':' && (('A' <= cs[0] && cs[0] <= 'Z') || ('a' <= cs[0] && cs[0] <= 'z')) {
        return true;
    }
    if cs.len() > 0 && cs[0] == '.' && (cs.len() == 1 || cs[1] == '/' || cs[1] == '\\') {
        return true;
    }
    let rows = split_path(value);
    has_parent_step(&rows)
}

fn path_parts_of(value: &str) -> (r: Vec<Vec<char>>)
    ensures
        char_rows(r@) == path_parts(value@),
{
    let rows = split_path(value);
    named_parts(&rows)
}

/// `rel` appended to `root` as `joined` says.
pub fn join_path(root: &str, rel: &str) -> (r: String)
    ensures
        r@ == joined(root@, rel@),
{
    let cs = chars_of(root);
    let mut out = root.to_string();
    if cs.len() > 0 && cs[cs.len() - 1] != '/' {
        push_char(&mut out, '/');
    }
    push_text(&mut out, rel);
    proof {
        if root@.len() > 0 && root@.last() != '/' {
            assert(out@ =~= root@ + seq!['/'] + rel@);
        } else {
            assert(out@ =~= root@ + rel@);
        }
    }
    out
}

/// Resolves an internal directory under the runtime root: a relative path with at least
/// one step, none of them up; refused otherwise.
pub fn resolve_directory(root: &str, directory: &str) -> (r: Result<String, String>)
    ensures
        match directory_result(root@, directory@) {
            Ok(t) => r is Ok && r->Ok_0@ == t,
            Err(e) => r is Err && r->Err_0@ == e,
        },
{
    if is_unsafe_path(directory) {
        return Err(String::from_str("内部目录路径不安全"));
    }
    let parts = path_parts_of(directory);
    if parts.len() == 0 {
        return Err(String::from_str("内部目录必须位于运行时根目录下"));
    }
    Ok(join_path(root, directory))
}

/// Checks the relative path of an internal file of `directory`: it must be relative, not
/// step up, and lie strictly inside the directory. Gives the path under the root.
pub fn safe_internal_path(root: &str, directory: &str, relative: &str) -> (r: Result<String, String>)
    ensures
        match internal_path_result(root@, directory@, relative@) {
            Ok(t) => r is Ok && r->Ok_0@ == t,
            Err(e) => r is Err && r->Err_0@ == e,
        },
{
    if is_unsafe_path(relative) {
        return Err(String::from_str("内部文件路径不安全"));
    }
    let dir = match resolve_directory(root, directory) {
        Ok(d) => d,
        Err(e) => return Err(e),
    };
    let dir_parts = path_parts_of(directory);
    let rel_parts = path_parts_of(relative);
    if !parts_start_with(&rel_parts, &dir_parts) || parts_equal(&rel_parts, &dir_parts) {
        let mut message = String::from_str("内部文件路径必须位于 ");
        push_text(&mut message, dir.as_str());
        push_text(&mut message, " 下");
        proof { reveal_strlit(" 下"); }
        return Err(message);
    }
    Ok(join_path(root, relative))
}

/// A file accepted as internal lies strictly inside its directory: its path is relative,
/// never steps up, and its steps begin with those of the directory and go further.
pub proof fn law_internal_path_stays_inside(root: Seq<char>, directory: Seq<char>, relative: Seq<char>)
    requires
        internal_path_result(root, directory, relative) is Ok,
    ensures
        !(relative.len() > 0 && path_separator(relative[0])),
        !drive_prefix(relative),
        !path_segments(relative).contains(seq!['.', '.']),
        !path_segments(directory).contains(seq!['.', '.']),
        1 <= path_parts(directory).len() < path_parts(relative).len(),
        path_parts(relative).subrange(0, path_parts(directory).len() as int) == path_parts(directory),
{
    let a = path_parts(directory);
    let b = path_parts(relative);
    if a.len() == b.len() {
        assert(b.subrange(0, b.len() as int) =~= b);
    }
}

// ---------------------------------------------------------------------------
// The stored form of an internal path
//
// `app.yaml` keeps the path of an internal file relative to the runtime root. The part
// after the root is found by comparing components as `std::path::Path` reads them on
// Windows, where `/` and `\` both separate; a drive such as `C:` counts as an ordinary
// component.

/// A character of a stored path: `\` written as `/`.
pub open spec fn stored_char(c: char) -> char {
    if c == '\\' { '/' } else { c }
}

/// The component a path starts with: the root (written `/`) when it starts with a
/// separator, the current directory (`.`) when it is `.` or starts with `.` and a
/// separator, none otherwise. Written as a one-character text, which no piece of the body
/// can equal.
pub open spec fn start_component(t: Seq<char>) -> Seq<Seq<char>> {
    if t.len() > 0 && path_separator(t[0]) {
        seq![seq!['/']]
    } else if t.len() > 0 && t[0] == '.' && (t.len() == 1 || path_separator(t[1])) {
        seq![seq!['.']]
    } else {
        Seq::empty()
    }
}

/// The pieces of a path after its start component.
pub open spec fn body_pieces(t: Seq<char>) -> Seq<Seq<char>> {
    path_segments(t.subrange(start_component(t).len() as int, t.len() as int))
}

/// The components of a path: its start component, then its pieces that are neither empty
/// nor `.`.
pub open spec fn path_components(t: Seq<char>) -> Seq<Seq<char>> {
    start_component(t) + body_pieces(t).filter(|p: Seq<char>| named_segment(p))
}

/// The pieces after the `j`-th piece that names a component.
pub open spec fn after_named(p: Seq<Seq<char>>, j: nat) -> Seq<Seq<char>>
    decreases p.len(),
{
    if j == 0 || p.len() == 0 {
        p
    } else if named_segment(p[0]) {
        after_named(p.drop_first(), (j - 1) as nat)
    } else {
        after_named(p.drop_first(), j)
    }
}

/// The pieces without the empty and `.` pieces at their start.
pub open spec fn trim_front(p: Seq<Seq<char>>) -> Seq<Seq<char>>
    decreases p.len(),
{
    if p.len() == 0 || named_segment(p[0]) { p } else { trim_front(p.drop_first()) }
}

/// The pieces without the empty and `.` pieces at their end.
pub open spec fn trim_back(p: Seq<Seq<char>>) -> Seq<Seq<char>>
    decreases p.len(),
{
    if p.len() == 0 || named_segment(p.last()) { p } else { trim_back(p.drop_last()) }
}

/// What `Path::strip_prefix` gives for `target` and `root`, with its separators written
/// as `/`: nothing when the components of `root` do not begin those of `target`;
/// otherwise the text after them, without the empty and `.` pieces at either end (at the
/// end only, when `root` has no component).
pub open spec fn stripped_path(root: Seq<char>, target: Seq<char>) -> Option<Seq<char>> {
    let a = path_components(root);
    let b = path_components(target);
    if !parts_prefix(a, b) {
        None
    } else if a.len() == 0 {
        Some(target.subrange(0, start_component(target).len() as int)
            + join_with(trim_back(body_pieces(target)), seq!['/']))
    } else {
        let j = (a.len() - start_component(root).len()) as nat;
        Some(join_with(trim_back(trim_front(after_named(body_pieces(target), j))), seq!['/']))
    }
}

/// The path stored in `app.yaml` for an internal file: the part after the root (the whole
/// path when it does not lie under the root), with every `\` written as `/`.
pub open spec fn relative_text(root: Seq<char>, target: Seq<char>) -> Seq<char> {
    let rest = match stripped_path(root, target) {
        Some(r) => r,
        None => target,
    };
    rest.map_values(|c: char| stored_char(c))
}

fn split_segments(cs: &Vec<char>) -> (r: Vec<Vec<char>>)
    ensures
        char_rows(r@) == path_segments(cs@),
{
    let mut out: Vec<Vec<char>> = Vec::new();
    let mut field: Vec<char> = Vec::new();
    let mut i: usize = 0;
    proof {
        assert(cs@.subrange(0, 0) =~= Seq::<char>::empty());
        assert(path_segments(Seq::<char>::empty()).drop_last() =~= Seq::<Seq<char>>::empty());
    }
    while i < cs.len()
        invariant
            i <= cs.len(),
            path_segments(cs@.subrange(0, i as int)).len() >= 1,
            field@ == path_segments(cs@.subrange(0, i as int)).last(),
            char_rows(out@) == path_segments(cs@.subrange(0, i as int)).drop_last(),
        decreases cs.len() - i,
    {
        let c = cs[i];
        let ghost pre = cs@.subrange(0, i as int);
        let ghost next = cs@.subrange(0, i + 1);
        proof {
            assert(next.drop_last() =~= pre);
            assert(next.last() == c);
            lemma_path_segments_nonempty(pre);
        }
        if c == '/' || c == '\\' {
            let ghost before = out@;
            let ghost last = field@;
            out.push(field);
            field = Vec::new();
            proof {
                let f = path_segments(pre);
                assert(path_segments(next) == f.push(Seq::empty()));
                assert(path_segments(next).drop_last() =~= f);
                assert(f.drop_last().push(f.last()) =~= f);
                assert(char_rows(out@) =~= char_rows(before).push(last));
                assert(field@ =~= path_segments(next).last());
            }
        } else {
            field.push(c);
            proof {
                let f = path_segments(pre);
                assert(path_segments(next) == f.update(f.len() - 1, f.last().push(c)));
                assert(path_segments(next).drop_last() =~= f.drop_last());
            }
        }
        i = i + 1;
    }
    proof {
        assert(cs@.subrange(0, cs.len() as int) =~= cs@);
        let f = path_segments(cs@);
        assert(f.drop_last().push(f.last()) =~= f);
    }
    let ghost before = out@;
    let ghost last = field@;
    out.push(field);
    proof { assert(char_rows(out@) =~= char_rows(before).push(last)); }
    out
}

fn chars_between(cs: &Vec<char>, from: usize, to: usize) -> (r: Vec<char>)
    requires
        from <= to <= cs@.len(),
    ensures
        r@ == cs@.subrange(from as int, to as int),
{
    let mut out: Vec<char> = Vec::new();
    let mut i: usize = from;
    while i < to
        invariant
            from <= i <= to <= cs@.len(),
            out@ == cs@.subrange(from as int, i as int),
        decreases to - i,
    {
        out.push(cs[i]);
        proof { assert(cs@.subrange(from as int, i + 1) =~= cs@.subrange(from as int, i as int).push(cs@[i as int])); }
        i = i + 1;
    }
    out
}

fn rows_between(rows: &Vec<Vec<char>>, from: usize, to: usize) -> (r: Vec<Vec<char>>)
    requires
        from <= to <= rows@.len(),
    ensures
        char_rows(r@) == char_rows(rows@).subrange(from as int, to as int),
{
    let ghost rv = char_rows(rows@);
    let mut out: Vec<Vec<char>> = Vec::new();
    let mut i: usize = from;
    while i < to
        invariant
            from <= i <= to <= rows@.len(),
            rv == char_rows(rows@),
            char_rows(out@) == rv.subrange(from as int, i as int),
        decreases to - i,
    {
        let ghost before = out@;
        out.push(rows[i].clone());
        proof {
            assert(char_rows(out@) =~= char_rows(before).push(rv[i as int]));
            assert(rv.subrange(from as int, i + 1) =~= rv.subrange(from as int, i as int).push(rv[i as int]));
        }
        i = i + 1;
    }
    out
}

/// The components of a path, the length of its start component and its body pieces.
fn components_of(cs: &Vec<char>) -> (r: (Vec<Vec<char>>, usize, Vec<Vec<char>>))
    ensures
        char_rows(r.0@) == path_components(cs@),
        r.1 == start_component(cs@).len(),
        char_rows(r.2@) == body_pieces(cs@),
{
    let at_root = cs.len() > 0 && (cs[0] == '/' || cs[0] == '\\');
    let at_current = !at_root && cs.len() > 0 && cs[0] == '.' && (cs.len() == 1 || cs[1] == '/' || cs[1] == '\\');
    let start: usize = if at_root || at_current { 1 } else { 0 };
    let body = chars_between(cs, start, cs.len());
    let pieces = split_segments(&body);
    let named = named_parts(&pieces);
    let mut comps: Vec<Vec<char>> = Vec::new();
    if at_root || at_current {
        let mut first: Vec<char> = Vec::new();
        first.push(if at_root { '/' } else { '.' });
        comps.push(first);
    }
    proof {
        if at_root || at_current {
            assert(char_rows(comps@)[0] =~= start_component(cs@)[0]);
        }
        assert(char_rows(comps@) =~= start_component(cs@));
    }
    let ghost tag = comps@;
    let mut i: usize = 0;
    while i < named.len()
        invariant
            i <= named@.len(),
            char_rows(tag) == start_component(cs@),
            char_rows(comps@) == char_rows(tag) + char_rows(named@).subrange(0, i as int),
        decreases named@.len() - i,
    {
        let ghost before = comps@;
        comps.push(named[i].clone());
        proof {
            assert(char_rows(comps@) =~= char_rows(before).push(char_rows(named@)[i as int]));
            assert(char_rows(named@).subrange(0, i + 1) =~= char_rows(named@).subrange(0, i as int).push(char_rows(named@)[i as int]));
            assert(char_rows(comps@) =~= char_rows(tag) + char_rows(named@).subrange(0, i + 1));
        }
        i = i + 1;
    }
    proof { assert(char_rows(named@).subrange(0, named@.len() as int) =~= char_rows(named@)); }
    (comps, start, pieces)
}

/// Where the pieces after the `j`-th named piece begin.
fn skip_named(rows: &Vec<Vec<char>>, j: usize) -> (r: usize)
    ensures
        r <= rows@.len(),
        char_rows(rows@).subrange(r as int, rows@.len() as int) == after_named(char_rows(rows@), j as nat),
{
    let ghost rv = char_rows(rows@);
    let mut i: usize = 0;
    let mut c: usize = 0;
    proof { assert(rv.subrange(0, rv.len() as int) =~= rv); }
    while i < rows.len() && c < j
        invariant
            i <= rows@.len(),
            c <= j,
            rv == char_rows(rows@),
            after_named(rv, j as nat) == after_named(rv.subrange(i as int, rv.len() as int), (j - c) as nat),
        decreases rows@.len() - i,
    {
        let ghost q = rv.subrange(i as int, rv.len() as int);
        proof {
            assert(q.drop_first() =~= rv.subrange(i + 1, rv.len() as int));
            assert(q[0] == rv[i as int]);
        }
        if is_named_segment(&rows[i]) {
            c = c + 1;
        }
        i = i + 1;
    }
    proof {
        if c == j {
        } else {
            assert(rv.subrange(i as int, rv.len() as int).len() == 0);
        }
    }
    i
}

/// The rows without the empty and `.` pieces at their start.
fn drop_leading_unnamed(rows: &Vec<Vec<char>>) -> (r: Vec<Vec<char>>)
    ensures
        char_rows(r@) == trim_front(char_rows(rows@)),
{
    let ghost rv = char_rows(rows@);
    let mut i: usize = 0;
    proof { assert(rv.subrange(0, rv.len() as int) =~= rv); }
    while i < rows.len() && !is_named_segment(&rows[i])
        invariant
            i <= rows@.len(),
            rv == char_rows(rows@),
            trim_front(rv) == trim_front(rv.subrange(i as int, rv.len() as int)),
        decreases rows@.len() - i,
    {
        proof {
            let q = rv.subrange(i as int, rv.len() as int);
            assert(q.drop_first() =~= rv.subrange(i + 1, rv.len() as int));
            assert(q[0] == rv[i as int]);
        }
        i = i + 1;
    }
    proof {
        let q = rv.subrange(i as int, rv.len() as int);
        if i < rows.len() { assert(q[0] == rv[i as int]); }
    }
    rows_between(rows, i, rows.len())
}

/// The rows without the empty and `.` pieces at their end.
fn drop_trailing_unnamed(rows: &Vec<Vec<char>>) -> (r: Vec<Vec<char>>)
    ensures
        char_rows(r@) == trim_back(char_rows(rows@)),
{
    let ghost rv = char_rows(rows@);
    let mut e: usize = rows.len();
    proof { assert(rv.subrange(0, rv.len() as int) =~= rv); }
    while e > 0 && !is_named_segment(&rows[e - 1])
        invariant
            e <= rows@.len(),
            rv == char_rows(rows@),
            trim_back(rv) == trim_back(rv.subrange(0, e as int)),
        decreases e,
    {
        proof {
            let q = rv.subrange(0, e as int);
            assert(q.drop_last() =~= rv.subrange(0, e - 1));
            assert(q.last() == rv[e - 1]);
        }
        e = e - 1;
    }
    proof {
        let q = rv.subrange(0, e as int);
        if e > 0 { assert(q.last() == rv[e - 1]); }
    }
    rows_between(rows, 0, e)
}

/// The rows one after another with `/` between each two.
fn join_rows(rows: &Vec<Vec<char>>) -> (r: Vec<char>)
    ensures
        r@ == join_with(char_rows(rows@), seq!['/']),
{
    let ghost rv = char_rows(rows@);
    let mut out: Vec<char> = Vec::new();
    let mut i: usize = 0;
    while i < rows.len()
        invariant
            i <= rows@.len(),
            rv == char_rows(rows@),
            out@ == join_with(rv.subrange(0, i as int), seq!['/']),
        decreases rows@.len() - i,
    {
        let ghost before = out@;
        if i > 0 {
            out.push('/');
        }
        let row = &rows[i];
        let ghost mid = out@;
        let mut k: usize = 0;
        while k < row.len()
            invariant
                k <= row@.len(),
                out@ == mid + row@.subrange(0, k as int),
            decreases row@.len() - k,
        {
            out.push(row[k]);
            proof { assert(row@.subrange(0, k + 1) =~= row@.subrange(0, k as int).push(row@[k as int])); }
            k = k + 1;
        }
        proof {
            assert(row@.subrange(0, row@.len() as int) =~= row@);
            let after = rv.subrange(0, i + 1);
            assert(after.drop_last() =~= rv.subrange(0, i as int));
            assert(after.last() == rv[i as int]);
            assert(rv[i as int] == row@);
            if i == 0 {
                assert(after.len() == 1);
                assert(out@ =~= row@);
            } else {
                assert(out@ =~= before + seq!['/'] + row@);
            }
        }
        i = i + 1;
    }
    proof { assert(rv.subrange(0, rv.len() as int) =~= rv); }
    out
}

/// The path stored in `app.yaml` for an internal file under `root`, as `relative_text`
/// says: `Path::strip_prefix`, falling back to the whole target, then `\` as `/`.
pub fn relative_internal_path(root: &str, target: &str) -> (r: String)
    ensures
        r@ == relative_text(root@, target@),
{
    let rc = chars_of(root);
    let tc = chars_of(target);
    let (rcomps, rstart, _rpieces) = components_of(&rc);
    let (tcomps, tstart, tpieces) = components_of(&tc);
    let rest: Vec<char> = if !parts_start_with(&tcomps, &rcomps) {
        tc
    } else if rcomps.len() == 0 {
        let mut head = chars_between(&tc, 0, tstart);
        let tail = join_rows(&drop_trailing_unnamed(&tpieces));
        let ghost h = head@;
        let mut k: usize = 0;
        while k < tail.len()
            invariant
                k <= tail@.len(),
                head@ == h + tail@.subrange(0, k as int),
            decreases tail@.len() - k,
        {
            head.push(tail[k]);
            proof { assert(tail@.subrange(0, k + 1) =~= tail@.subrange(0, k as int).push(tail@[k as int])); }
            k = k + 1;
        }
        proof { assert(tail@.subrange(0, tail@.len() as int) =~= tail@); }
        head
    } else {
        proof {
            assert(path_components(rc@).len() >= start_component(rc@).len());
        }
        let from = skip_named(&tpieces, rcomps.len() - rstart);
        let after = rows_between(&tpieces, from, tpieces.len());
        join_rows(&drop_trailing_unnamed(&drop_leading_unnamed(&after)))
    };
    proof {
        assert(rest@ == match stripped_path(root@, target@) { Some(x) => x, None => target@ });
    }
    let mut out = String::new();
    let mut k: usize = 0;
    while k < rest.len()
        invariant
            k <= rest@.len(),
            out@ == rest@.subrange(0, k as int).map_values(|c: char| stored_char(c)),
        decreases rest@.len() - k,
    {
        let c = rest[k];
        push_char(&mut out, if c == '\\' { '/' } else { c });
        proof {
            assert(rest@.subrange(0, k + 1).map_values(|c: char| stored_char(c))
                =~= rest@.subrange(0, k as int).map_values(|c: char| stored_char(c)).push(stored_char(c)));
        }
        k = k + 1;
    }
    proof { assert(rest@.subrange(0, rest@.len() as int) =~= rest@); }
    out
}

proof fn lemma_first_piece(s: Seq<char>)
    ensures
        path_segments(s)[0].len() <= s.len(),
        forall|i: int| 0 <= i < path_segments(s)[0].len() ==> path_segments(s)[0][i] == s[i] && !path_separator(s[i]),
        path_segments(s)[0].len() < s.len() ==> path_separator(s[path_segments(s)[0].len() as int]),
        path_segments(s).len() == 1 ==> path_segments(s)[0] == s,
        path_segments(s).len() > 1 ==> path_segments(s)[0].len() < s.len(),
    decreases s.len(),
{
    lemma_path_segments_nonempty(s);
    if s.len() == 0 {
        assert(path_segments(s) =~= seq![Seq::<char>::empty()]);
    } else {
        let d = s.drop_last();
        let c = s.last();
        lemma_first_piece(d);
        lemma_path_segments_nonempty(d);
        let f = path_segments(d);
        let q0 = f[0];
        assert forall|i: int| 0 <= i < d.len() implies d[i] == s[i] by {}
        if path_separator(c) {
            assert(path_segments(s) == f.push(Seq::empty()));
            assert(path_segments(s)[0] == q0);
        } else {
            let g = f.update(f.len() - 1, f.last().push(c));
            assert(path_segments(s) == g);
            if f.len() == 1 {
                assert(q0 == d);
                assert(g[0] == d.push(c));
                assert(d.push(c) =~= s);
            } else {
                assert(g[0] == q0);
            }
        }
    }
}

/// A path that is not empty has at least one component.
proof fn lemma_nonempty_path_has_component(s: Seq<char>)
    requires
        s.len() > 0,
    ensures
        path_components(s).len() > 0,
{
    if start_component(s).len() == 0 {
        assert(s.subrange(0, s.len() as int) =~= s);
        assert(body_pieces(s) == path_segments(s));
        lemma_first_piece(s);
        lemma_path_segments_nonempty(s);
        let p0 = path_segments(s)[0];
        assert(!path_separator(s[0]));
        assert(p0.len() >= 1);
        assert(named_segment(p0)) by {
            if p0 == seq!['.'] {
                assert(p0[0] == s[0]);
                if s.len() >= 2 {
                    assert(!path_separator(s[1]));
                    if p0.len() < s.len() {
                        assert(path_separator(s[1]));
                    }
                }
            }
        }
        path_segments(s).lemma_filter_contains(|p: Seq<char>| named_segment(p), 0);
        let fl = path_segments(s).filter(|p: Seq<char>| named_segment(p));
        assert(fl.contains(p0));
        assert(path_components(s) =~= fl);
    }
}

proof fn lemma_segments_concat(x: Seq<char>, y: Seq<char>)
    ensures
        path_segments(x + seq!['/'] + y) == path_segments(x) + path_segments(y),
    decreases y.len(),
{
    let z = x + seq!['/'] + y;
    if y.len() == 0 {
        assert(z.drop_last() =~= x);
        assert(z.last() == '/');
        assert(path_segments(z) == path_segments(x).push(Seq::empty()));
        assert(path_segments(y) =~= seq![Seq::<char>::empty()]);
        assert(path_segments(x).push(Seq::empty()) =~= path_segments(x) + path_segments(y));
    } else {
        assert(z.drop_last() =~= x + seq!['/'] + y.drop_last());
        assert(z.last() == y.last());
        lemma_segments_concat(x, y.drop_last());
        lemma_path_segments_nonempty(y.drop_last());
        let f = path_segments(x + seq!['/'] + y.drop_last());
        let g = path_segments(y.drop_last());
        let h = path_segments(x);
        assert(f == h + g);
        if path_separator(y.last()) {
            assert(path_segments(z) == f.push(Seq::empty()));
            assert(path_segments(y) == g.push(Seq::empty()));
            assert(f.push(Seq::empty()) =~= h + g.push(Seq::empty()));
        } else {
            let c = y.last();
            assert(path_segments(z) == f.update(f.len() - 1, f.last().push(c)));
            assert(path_segments(y) == g.update(g.len() - 1, g.last().push(c)));
            assert(f.last() == g.last());
            assert(f.update(f.len() - 1, f.last().push(c)) =~= h + g.update(g.len() - 1, g.last().push(c)));
        }
    }
}

proof fn lemma_join_segments(s: Seq<char>)
    ensures
        join_with(path_segments(s), seq!['/']) == s.map_values(|c: char| stored_char(c)),
    decreases s.len(),
{
    let m = s.map_values(|c: char| stored_char(c));
    if s.len() == 0 {
        assert(path_segments(s) =~= seq![Seq::<char>::empty()]);
        assert(m =~= Seq::<char>::empty());
    } else {
        let d = s.drop_last();
        let c = s.last();
        lemma_join_segments(d);
        lemma_path_segments_nonempty(d);
        let f = path_segments(d);
        let md = d.map_values(|c: char| stored_char(c));
        assert(m =~= md.push(stored_char(c)));
        if path_separator(c) {
            let p = f.push(Seq::empty());
            assert(path_segments(s) == p);
            assert(p.drop_last() =~= f);
            assert(join_with(p, seq!['/']) == join_with(f, seq!['/']) + seq!['/'] + Seq::<char>::empty());
            assert(stored_char(c) == '/');
            assert(m =~= md + seq!['/'] + Seq::<char>::empty());
        } else {
            let p = f.update(f.len() - 1, f.last().push(c));
            assert(path_segments(s) == p);
            assert(stored_char(c) == c);
            if f.len() == 1 {
                assert(join_with(p, seq!['/']) == p[0]);
                assert(join_with(f, seq!['/']) == f[0]);
            } else {
                assert(p.drop_last() =~= f.drop_last());
                assert(join_with(p, seq!['/']) == join_with(f.drop_last(), seq!['/']) + seq!['/'] + f.last().push(c));
                assert(join_with(f, seq!['/']) == join_with(f.drop_last(), seq!['/']) + seq!['/'] + f.last());
                assert(join_with(p, seq!['/']) =~= join_with(f, seq!['/']).push(c));
            }
        }
    }
}

proof fn lemma_filter_keeps_named(p: Seq<Seq<char>>)
    requires
        forall|k: int| 0 <= k < p.len() ==> named_segment(#[trigger] p[k]),
    ensures
        p.filter(|x: Seq<char>| named_segment(x)) == p,
    decreases p.len(),
{
    reveal(Seq::filter);
    if p.len() > 0 {
        assert forall|k: int| 0 <= k < p.drop_last().len() implies named_segment(#[trigger] p.drop_last()[k]) by {
            assert(p.drop_last()[k] == p[k]);
        }
        lemma_filter_keeps_named(p.drop_last());
        assert(named_segment(p[p.len() - 1]));
        assert(p.drop_last().push(p.last()) =~= p);
    }
}

proof fn lemma_unnamed_only(a: Seq<Seq<char>>)
    requires
        a.filter(|p: Seq<char>| named_segment(p)).len() == 0,
    ensures
        forall|k: int| 0 <= k < a.len() ==> !named_segment(#[trigger] a[k]),
{
    assert forall|k: int| 0 <= k < a.len() implies !named_segment(#[trigger] a[k]) by {
        if named_segment(a[k]) {
            a.lemma_filter_contains(|p: Seq<char>| named_segment(p), k);
        }
    }
}

spec fn named_count(a: Seq<Seq<char>>) -> nat {
    a.filter(|p: Seq<char>| named_segment(p)).len()
}

proof fn lemma_after_named_concat(a: Seq<Seq<char>>, b: Seq<Seq<char>>)
    ensures
        after_named(a + b, named_count(a)) == after_named(a, named_count(a)) + b,
        forall|k: int| 0 <= k < after_named(a, named_count(a)).len()
            ==> !named_segment(#[trigger] after_named(a, named_count(a))[k]),
    decreases a.len(),
{
    let pred = |p: Seq<char>| named_segment(p);
    let n = a.filter(pred).len();
    if a.len() == 0 {
        reveal(Seq::filter);
        assert(a + b =~= b);
    } else if n == 0 {
        lemma_unnamed_only(a);
    } else {
        let rest = a.drop_first();
        assert(a =~= seq![a[0]] + rest);
        rest.lemma_filter_prepend(a[0], pred);
        lemma_after_named_concat(rest, b);
        let m = rest.filter(pred).len();
        assert((a + b).drop_first() =~= rest + b);
        assert((a + b)[0] == a[0]);
        if named_segment(a[0]) {
            assert(n == m + 1);
        } else {
            assert(n == m);
        }
    }
}

proof fn lemma_trim_front_skips(u: Seq<Seq<char>>, r: Seq<Seq<char>>)
    requires
        forall|k: int| 0 <= k < u.len() ==> !named_segment(#[trigger] u[k]),
        r.len() > 0,
        named_segment(r[0]),
    ensures
        trim_front(u + r) == r,
    decreases u.len(),
{
    if u.len() == 0 {
        assert(u + r =~= r);
    } else {
        assert((u + r).drop_first() =~= u.drop_first() + r);
        assert((u + r)[0] == u[0]);
        assert(!named_segment(u[0]));
        assert forall|k: int| 0 <= k < u.drop_first().len() implies !named_segment(#[trigger] u.drop_first()[k]) by {
            assert(u.drop_first()[k] == u[k + 1]);
        }
        lemma_trim_front_skips(u.drop_first(), r);
    }
}

proof fn lemma_empty_piece_unnamed()
    ensures
        seq![Seq::<char>::empty()].filter(|p: Seq<char>| named_segment(p)) == Seq::<Seq<char>>::empty(),
{
    let pred = |p: Seq<char>| named_segment(p);
    let e = Seq::<Seq<char>>::empty();
    reveal(Seq::filter);
    assert(e.filter(pred) =~= e);
    e.lemma_filter_prepend(Seq::<char>::empty(), pred);
    assert(seq![Seq::<char>::empty()] + e =~= seq![Seq::<char>::empty()]);
    assert(!named_segment(Seq::<char>::empty()));
}

/// The pieces of a plain relative path: all of them name a component.
pub open spec fn plain_relative(rel: Seq<char>) -> bool {
    forall|k: int| 0 <= k < path_segments(rel).len() ==> named_segment(#[trigger] path_segments(rel)[k])
}

proof fn lemma_plain_facts(rel: Seq<char>)
    requires
        plain_relative(rel),
    ensures
        path_segments(rel).len() >= 1,
        join_with(path_segments(rel), seq!['/']) == rel.map_values(|c: char| stored_char(c)),
        path_segments(rel).filter(|p: Seq<char>| named_segment(p)) == path_segments(rel),
        trim_back(path_segments(rel)) == path_segments(rel),
        trim_front(path_segments(rel)) == path_segments(rel),
        named_segment(path_segments(rel)[0]),
        start_component(rel).len() == 0,
{
    let rr = path_segments(rel);
    lemma_path_segments_nonempty(rel);
    lemma_join_segments(rel);
    lemma_filter_keeps_named(rr);
    assert(named_segment(rr[0]));
    assert(named_segment(rr[rr.len() - 1]));
    lemma_first_piece(rel);
    assert(rr[0].len() >= 1);
    assert(rel[0] == rr[0][0]);
    assert(start_component(rel).len() == 0) by {
        if rel[0] == '.' && (rel.len() == 1 || path_separator(rel[1])) {
            if rr[0].len() >= 2 {
                assert(rel[1] == rr[0][1]);
            }
            assert(rr[0] =~= seq!['.']);
        }
    }
}

proof fn lemma_round_trip_empty_root(rel: Seq<char>)
    requires
        plain_relative(rel),
    ensures
        stripped_path(Seq::empty(), joined(Seq::empty(), rel)) == Some(rel.map_values(|c: char| stored_char(c))),
{
    let root = Seq::<char>::empty();
    let rr = path_segments(rel);
    lemma_plain_facts(rel);
    let t = joined(root, rel);
    assert(t =~= rel);
    assert(rel.subrange(0, rel.len() as int) =~= rel);
    assert(body_pieces(rel) == rr);
    assert(root.subrange(0, 0) =~= root);
    assert(path_segments(root) =~= seq![Seq::<char>::empty()]);
    lemma_empty_piece_unnamed();
    assert(path_components(root) =~= Seq::<Seq<char>>::empty());
    assert(path_components(t) =~= rr);
    let a = path_components(root);
    let b = path_components(t);
    assert(b.subrange(0, 0) =~= a);
    assert(parts_prefix(a, b));
    assert(start_component(t).len() == 0);
    assert(t.subrange(0, 0) =~= Seq::<char>::empty());
    assert(body_pieces(t) == rr);
    let m = rel.map_values(|c: char| stored_char(c));
    assert(Seq::<char>::empty() + m =~= m);
    assert(stripped_path(root, t) == Some(t.subrange(0, 0) + join_with(trim_back(rr), seq!['/'])));
}

proof fn lemma_round_trip_slash_root(rel: Seq<char>)
    requires
        plain_relative(rel),
    ensures
        stripped_path(seq!['/'], joined(seq!['/'], rel)) == Some(rel.map_values(|c: char| stored_char(c))),
{
    let root = seq!['/'];
    let rr = path_segments(rel);
    lemma_plain_facts(rel);
    let t = joined(root, rel);
    assert(t =~= seq!['/'] + rel);
    assert(start_component(t) == seq![seq!['/']]);
    assert(t.subrange(1, t.len() as int) =~= rel);
    assert(body_pieces(t) == rr);
    assert(root.subrange(1, 1) =~= Seq::<char>::empty());
    assert(body_pieces(root) =~= seq![Seq::<char>::empty()]);
    lemma_empty_piece_unnamed();
    let a = path_components(root);
    assert(a =~= seq![seq!['/']]);
    assert(path_components(t) == seq![seq!['/']] + rr);
    assert((seq![seq!['/']] + rr).subrange(0, 1) =~= a);
    assert(after_named(rr, 0) == rr);
}

proof fn lemma_round_trip_general(root: Seq<char>, rel: Seq<char>)
    requires
        plain_relative(rel),
        root.len() > 0,
        root != seq!['/'],
    ensures
        stripped_path(root, joined(root, rel)) == Some(rel.map_values(|c: char| stored_char(c))),
{
    let pred = |p: Seq<char>| named_segment(p);
    let rr = path_segments(rel);
    lemma_plain_facts(rel);
    let t = joined(root, rel);
    let r1 = if root.last() == '/' { root.drop_last() } else { root };
    assert(t =~= r1 + seq!['/'] + rel);
    assert(r1.len() >= 1) by {
        if root.last() == '/' && root.len() == 1 {
            assert(root =~= seq!['/']);
        }
    }
    assert(t[0] == root[0]);
    assert(r1.len() >= 2 ==> t[1] == root[1]);
    assert(r1.len() == 1 ==> t[1] == '/');
    assert(root.len() >= 2 && r1.len() >= 2 ==> r1[1] == root[1]);
    assert(start_component(t) == start_component(root)) by {
        if root.len() >= 2 && r1.len() == 1 {
            assert(root.last() == '/');
            assert(root.len() == 2);
            assert(root[1] == '/');
        }
    }
    let s = start_component(root).len();
    let x = r1.subrange(s as int, r1.len() as int);
    assert(t.subrange(s as int, t.len() as int) =~= x + seq!['/'] + rel);
    lemma_segments_concat(x, rel);
    let aa = path_segments(x);
    assert(body_pieces(t) == aa + rr);
    if root.last() == '/' {
        assert(root.subrange(s as int, root.len() as int) =~= x + seq!['/'] + Seq::<char>::empty());
        lemma_segments_concat(x, Seq::<char>::empty());
        assert(path_segments(Seq::<char>::empty()) =~= seq![Seq::<char>::empty()]);
        assert(body_pieces(root) == aa + seq![Seq::<char>::empty()]);
        Seq::filter_distributes_over_add(aa, seq![Seq::<char>::empty()], pred);
        lemma_empty_piece_unnamed();
        assert(body_pieces(root).filter(pred) =~= aa.filter(pred));
    } else {
        assert(root.subrange(s as int, root.len() as int) =~= x);
        assert(body_pieces(root) == aa);
    }
    Seq::filter_distributes_over_add(aa, rr, pred);
    let na = aa.filter(pred);
    let tag = start_component(root);
    assert(path_components(root) == tag + na);
    assert(path_components(t) =~= tag + na + rr);
    lemma_nonempty_path_has_component(root);
    let a = path_components(root);
    let b = path_components(t);
    assert(b.subrange(0, a.len() as int) =~= a);
    assert(parts_prefix(a, b));
    let j = (a.len() - tag.len()) as nat;
    assert(j == named_count(aa));
    lemma_after_named_concat(aa, rr);
    let u = after_named(aa, named_count(aa));
    assert(after_named(aa + rr, j) == u + rr);
    lemma_trim_front_skips(u, rr);
}

/// A file joined under the root from a plain relative path, one whose pieces between
/// separators are neither empty nor `.`, is stored as that path, with `\` written as `/`.
pub proof fn law_stored_path_round_trip(root: Seq<char>, rel: Seq<char>)
    requires
        plain_relative(rel),
    ensures
        relative_text(root, joined(root, rel)) == rel.map_values(|c: char| stored_char(c)),
{
    if root.len() == 0 {
        assert(root =~= Seq::<char>::empty());
        lemma_round_trip_empty_root(rel);
    } else if root == seq!['/'] {
        lemma_round_trip_slash_root(rel);
    } else {
        lemma_round_trip_general(root, rel);
    }
    let m = rel.map_values(|c: char| stored_char(c));
    assert(m.map_values(|c: char| stored_char(c)) =~= m);
}

} // verus!
