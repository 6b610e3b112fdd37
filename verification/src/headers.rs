//! The headers of an upload request that are stored with the object.

use crate::codec::{all_ascii, ascii_chars, ascii_to_string, has_prefix};
use crate::error::ApiError;
use vstd::prelude::*;

verus! {

/// One header of a request, as received: its (lower-case) name and raw value.
#[derive(Debug, PartialEq, Eq)]
pub struct HeaderEntry {
    pub name: String,
    pub value: Vec<u8>,
}

/// The headers stored with an object version: its content type, and the
/// other preserved headers, sorted by name (no name twice).
#[derive(Debug, PartialEq, Eq)]
pub struct ObjectVersionHeaders {
    pub content_type: String,
    pub other: Vec<(String, String)>,
}

/// The map that a list of (name, value) pairs stands for; a later pair
/// overrides an earlier one with the same name.
pub open spec fn pairs_map(p: Seq<(String, String)>) -> Map<Seq<char>, Seq<char>>
    decreases p.len(),
{
    if p.len() == 0 {
        Map::empty()
    } else {
        pairs_map(p.drop_last()).insert(p.last().0@, p.last().1@)
    }
}

/// No name occurs twice.
pub open spec fn distinct_names(p: Seq<(String, String)>) -> bool {
    forall|i: int, j: int| 0 <= i < j < p.len() ==> p[i].0@ != p[j].0@
}

/// The order of names: lexicographic by character code, the order in which
/// a map keyed by `String` keeps them (UTF-8 bytes compare as the characters
/// they encode).
pub open spec fn name_lt(a: Seq<char>, b: Seq<char>) -> bool
    decreases a.len(),
{
    if a.len() == 0 {
        b.len() > 0
    } else if b.len() == 0 {
        false
    } else if a[0] != b[0] {
        a[0] < b[0]
    } else {
        name_lt(a.drop_first(), b.drop_first())
    }
}

/// The pairs are sorted by name, strictly: no name occurs twice.
pub open spec fn sorted_names(p: Seq<(String, String)>) -> bool {
    forall|i: int, j: int| 0 <= i < j < p.len() ==> name_lt(#[trigger] p[i].0@, #[trigger] p[j].0@)
}

proof fn lemma_name_lt_irrefl(a: Seq<char>)
    ensures
        !name_lt(a, a),
    decreases a.len(),
{
    if a.len() > 0 {
        lemma_name_lt_irrefl(a.drop_first());
    }
}

proof fn lemma_name_lt_trans(a: Seq<char>, b: Seq<char>, c: Seq<char>)
    requires
        name_lt(a, b),
        name_lt(b, c),
    ensures
        name_lt(a, c),
    decreases a.len(),
{
    if a.len() > 0 && b.len() > 0 && c.len() > 0 && a[0] == b[0] && b[0] == c[0] {
        lemma_name_lt_trans(a.drop_first(), b.drop_first(), c.drop_first());
    }
}

proof fn lemma_name_lt_total(a: Seq<char>, b: Seq<char>)
    requires
        a != b,
    ensures
        name_lt(a, b) || name_lt(b, a),
    decreases a.len(),
{
    if a.len() > 0 && b.len() > 0 {
        if a[0] == b[0] {
            if a.drop_first() == b.drop_first() {
                assert(a =~= seq![a[0]] + a.drop_first());
                assert(b =~= seq![b[0]] + b.drop_first());
            }
            lemma_name_lt_total(a.drop_first(), b.drop_first());
        } else {
            assert(a[0] < b[0] || b[0] < a[0]);
        }
    } else if a.len() == 0 && b.len() == 0 {
        assert(a =~= b);
    }
}

proof fn lemma_sorted_distinct(p: Seq<(String, String)>)
    requires
        sorted_names(p),
    ensures
        distinct_names(p),
{
    assert forall|i: int, j: int| 0 <= i < j < p.len() implies p[i].0@ != p[j].0@ by {
        assert(name_lt(p[i].0@, p[j].0@));
        lemma_name_lt_irrefl(p[i].0@);
    }
}

/// Whether name `a` comes before name `b` (see [`name_lt`]).
pub fn name_less(a: &str, b: &str) -> (r: bool)
    ensures
        r == name_lt(a@, b@),
{
    let n = a.unicode_len();
    let m = b.unicode_len();
    let mut i: usize = 0;
    assert(a@.skip(0) =~= a@);
    assert(b@.skip(0) =~= b@);
    while i < n && i < m
        invariant
            i <= n,
            i <= m,
            n == a@.len(),
            m == b@.len(),
            name_lt(a@, b@) == name_lt(a@.skip(i as int), b@.skip(i as int)),
        decreases n - i,
    {
        let x = a.get_char(i);
        let y = b.get_char(i);
        assert(a@.skip(i as int)[0] == x);
        assert(b@.skip(i as int)[0] == y);
        if x != y {
            return x < y;
        }
        assert(a@.skip(i as int).drop_first() =~= a@.skip(i + 1));
        assert(b@.skip(i as int).drop_first() =~= b@.skip(i + 1));
        i = i + 1;
    }
    i == n && i < m
}

impl ObjectVersionHeaders {
    /// The preserved headers other than the content type, by name.
    pub open spec fn other_map(&self) -> Map<Seq<char>, Seq<char>> {
        pairs_map(self.other@)
    }

    /// The other headers are sorted by name, each name once.
    pub open spec fn wf(&self) -> bool {
        sorted_names(self.other@)
    }
}

/// What `HeaderValue::to_str` accepts: visible ASCII characters and tabs.
pub open spec fn visible_ascii(v: Seq<u8>) -> bool {
    forall|i: int| 0 <= i < v.len() ==> (32 <= #[trigger] v[i] < 127 || v[i] == 9)
}

/// The value of the first header called `name`, if any.
pub open spec fn first_value(hs: Seq<HeaderEntry>, name: Seq<char>) -> Option<Seq<u8>>
    decreases hs.len(),
{
    if hs.len() == 0 {
        None
    } else if hs[0].name@ == name {
        Some(hs[0].value@)
    } else {
        first_value(hs.drop_first(), name)
    }
}

/// Whether a header name belongs to the user metadata headers.
pub open spec fn is_meta_name(name: Seq<char>) -> bool {
    name.len() >= 11 && name.subrange(0, 11) == "x-amz-meta-"@
}

/// Adds the standard header `name` to `m` when the request has it with a
/// readable value (its first value counts).
pub open spec fn with_standard(
    m: Map<Seq<char>, Seq<char>>,
    hs: Seq<HeaderEntry>,
    name: Seq<char>,
) -> Map<Seq<char>, Seq<char>> {
    match first_value(hs, name) {
        Some(v) => if visible_ascii(v) {
            m.insert(name, ascii_chars(v))
        } else {
            m
        },
        None => m,
    }
}

/// The standard headers that are kept: cache-control, content-disposition,
/// content-encoding, content-language and expires.
pub open spec fn standard_map(hs: Seq<HeaderEntry>) -> Map<Seq<char>, Seq<char>> {
    let m0 = Map::<Seq<char>, Seq<char>>::empty();
    let m1 = with_standard(m0, hs, "cache-control"@);
    let m2 = with_standard(m1, hs, "content-disposition"@);
    let m3 = with_standard(m2, hs, "content-encoding"@);
    let m4 = with_standard(m3, hs, "content-language"@);
    with_standard(m4, hs, "expires"@)
}

/// Adds the user metadata headers with readable values to `base`, in request
/// order, a later one overriding an earlier one of the same name.
pub open spec fn with_meta(base: Map<Seq<char>, Seq<char>>, hs: Seq<HeaderEntry>) -> Map<
    Seq<char>,
    Seq<char>,
>
    decreases hs.len(),
{
    if hs.len() == 0 {
        base
    } else {
        let m = with_meta(base, hs.drop_last());
        let e = hs.last();
        if is_meta_name(e.name@) && visible_ascii(e.value@) {
            m.insert(e.name@, ascii_chars(e.value@))
        } else {
            m
        }
    }
}

/// The headers stored with an upload, other than its content type.
pub open spec fn stored_headers_map(hs: Seq<HeaderEntry>) -> Map<Seq<char>, Seq<char>> {
    with_meta(standard_map(hs), hs)
}

/// A header value is readable as text exactly when each of its bytes is a
/// visible ASCII character, space to `~`, or a tab; the text then has one
/// character per byte, of that code.
pub proof fn lemma_readable_values(v: Seq<u8>)
    ensures
        visible_ascii(v) <==> forall|i: int| 0 <= i < v.len() ==> (32 <= #[trigger] v[i] <= 126 || v[i] == 9),
        forall|i: int| 0 <= i < v.len() ==> #[trigger] (ascii_chars(v)[i] as u32) == v[i] as u32,
        ascii_chars(v).len() == v.len(),
{
    assert forall|i: int| 0 <= i < v.len() implies #[trigger] (ascii_chars(v)[i] as u32) == v[i] as u32 by {
        assert(ascii_chars(v)[i] == v[i] as char);
    }
}

proof fn lemma_with_meta_keeps_other(base: Map<Seq<char>, Seq<char>>, hs: Seq<HeaderEntry>, k: Seq<char>)
    requires
        !is_meta_name(k),
    ensures
        with_meta(base, hs).dom().contains(k) == base.dom().contains(k),
        base.dom().contains(k) ==> with_meta(base, hs)[k] == base[k],
    decreases hs.len(),
{
    if hs.len() > 0 {
        lemma_with_meta_keeps_other(base, hs.drop_last(), k);
    }
}

/// The standard headers are kept: for each of cache-control,
/// content-disposition, content-encoding, content-language and expires, a
/// request whose first such header has a readable value stores that name with
/// that value. A header that is neither one of them nor a user metadata
/// (`x-amz-meta-`) header is not stored.
pub proof fn lemma_standard_headers_kept(hs: Seq<HeaderEntry>, name: Seq<char>, v: Seq<u8>)
    ensures
        (name == "cache-control"@ || name == "content-disposition"@ || name == "content-encoding"@
            || name == "content-language"@ || name == "expires"@) && first_value(hs, name) == Some(v)
            && (forall|i: int| 0 <= i < v.len() ==> (32 <= #[trigger] v[i] <= 126 || v[i] == 9))
            ==> stored_headers_map(hs).dom().contains(name) && stored_headers_map(hs)[name]
            == ascii_chars(v),
        !(name == "cache-control"@ || name == "content-disposition"@ || name == "content-encoding"@
            || name == "content-language"@ || name == "expires"@) && !(name.len() >= 11
            && name.subrange(0, 11) == "x-amz-meta-"@) ==> !stored_headers_map(hs).dom().contains(name),
{
    reveal_strlit("cache-control");
    reveal_strlit("content-disposition");
    reveal_strlit("content-encoding");
    reveal_strlit("content-language");
    reveal_strlit("expires");
    reveal_strlit("x-amz-meta-");
    let s = standard_map(hs);
    if name == "cache-control"@ || name == "content-disposition"@ || name == "content-encoding"@
        || name == "content-language"@ || name == "expires"@ {
        assert(name[0] != 'x');
        assert("x-amz-meta-"@[0] == 'x');
        if name.len() >= 11 {
            assert(name.subrange(0, 11)[0] == name[0]);
        }
        assert(!is_meta_name(name));
        lemma_with_meta_keeps_other(s, hs, name);
        if first_value(hs, name) == Some(v) && (forall|i: int| 0 <= i < v.len() ==> (32 <= #[trigger] v[i] <= 126 || v[i] == 9)) {
            assert(visible_ascii(v));
            assert(s.dom().contains(name) && s[name] == ascii_chars(v));
        }
    } else if !(name.len() >= 11 && name.subrange(0, 11) == "x-amz-meta-"@) {
        assert(!is_meta_name(name));
        lemma_with_meta_keeps_other(s, hs, name);
        assert(!s.dom().contains(name));
    }
}

/// Whether a header value is readable as text (visible ASCII or tab).
pub fn is_visible_ascii(v: &[u8]) -> (r: bool)
    ensures
        r == visible_ascii(v@),
{
    let mut i: usize = 0;
    while i < v.len()
        invariant
            i <= v@.len(),
            forall|j: int| 0 <= j < i ==> (32 <= #[trigger] v@[j] < 127 || v@[j] == 9),
        decreases v@.len() - i,
    {
        let b = v[i];
        if !(32 <= b && b < 127 || b == 9) {
            return false;
        }
        i = i + 1;
    }
    true
}

/// The value of a header as text, as `HeaderValue::to_str` gives it: `None`
/// unless every byte is visible ASCII or a tab.
pub fn header_value_str(v: &[u8]) -> (r: Option<String>)
    ensures
        r is Some <==> visible_ascii(v@),
        r matches Some(s) ==> s@ == ascii_chars(v@),
{
    if is_visible_ascii(v) {
        assert(all_ascii(v@)) by {
            assert forall|j: int| 0 <= j < v@.len() implies #[trigger] v@[j] < 128 by {
                assert(32 <= v@[j] < 127 || v@[j] == 9);
            }
        }
        Some(ascii_to_string(v))
    } else {
        None
    }
}

/// The value of the first header called `name`.
pub fn get_first<'a>(hs: &'a Vec<HeaderEntry>, name: &str) -> (r: Option<&'a Vec<u8>>)
    ensures
        match r {
            Some(v) => first_value(hs@, name@) == Some(v@),
            None => first_value(hs@, name@) is None,
        },
{
    let wanted = String::from_str(name);
    let mut i: usize = 0;
    assert(hs@.skip(0) =~= hs@);
    while i < hs.len()
        invariant
            i <= hs@.len(),
            wanted@ == name@,
            first_value(hs@, name@) == first_value(hs@.skip(i as int), name@),
        decreases hs@.len() - i,
    {
        let ghost rest = hs@.skip(i as int);
        assert(rest.drop_first() =~= hs@.skip(i + 1));
        if hs[i].name == wanted {
            return Some(&hs[i].value);
        }
        i = i + 1;
    }
    assert(hs@.skip(i as int).len() == 0);
    None
}

/// The content type of an upload: the first `content-type` header, or `blob`
/// where there is none; a content type that is not readable as text is
/// refused.
pub fn get_mime_type(hs: &Vec<HeaderEntry>) -> (r: Result<String, ApiError>)
    ensures
        match first_value(hs@, "content-type"@) {
            None => r matches Ok(t) && t@ == "blob"@,
            Some(v) => if visible_ascii(v) {
                r matches Ok(t) && t@ == ascii_chars(v)
            } else {
                r matches Err(ApiError::InvalidHeader)
            },
        },
{
    match get_first(hs, "content-type") {
        Some(v) => match header_value_str(v.as_slice()) {
            Some(s) => Ok(s),
            None => Err(ApiError::InvalidHeader),
        },
        None => Ok(String::from_str("blob")),
    }
}


proof fn lemma_pairs_map_dom(p: Seq<(String, String)>, k: Seq<char>)
    ensures
        pairs_map(p).dom().contains(k) <==> exists|i: int| 0 <= i < p.len() && #[trigger] p[i].0@ == k,
    decreases p.len(),
{
    if p.len() > 0 {
        let q = p.drop_last();
        lemma_pairs_map_dom(q, k);
        if pairs_map(p).dom().contains(k) {
            if p.last().0@ == k {
                assert(p[p.len() - 1].0@ == k);
            } else {
                let i = choose|i: int| 0 <= i < q.len() && #[trigger] q[i].0@ == k;
                assert(p[i] == q[i]);
            }
        }
        if exists|i: int| 0 <= i < p.len() && #[trigger] p[i].0@ == k {
            let i = choose|i: int| 0 <= i < p.len() && #[trigger] p[i].0@ == k;
            if i < q.len() {
                assert(q[i] == p[i]);
            }
        }
    }
}

proof fn lemma_pairs_map_update(p: Seq<(String, String)>, i: int, e: (String, String))
    requires
        distinct_names(p),
        0 <= i < p.len(),
        p[i].0@ == e.0@,
    ensures
        pairs_map(p.update(i, e)) == pairs_map(p).insert(e.0@, e.1@),
    decreases p.len(),
{
    let u = p.update(i, e);
    let q = p.drop_last();
    if i == p.len() - 1 {
        assert(u.drop_last() =~= q);
        assert(pairs_map(u) =~= pairs_map(p).insert(e.0@, e.1@));
    } else {
        assert(u.drop_last() =~= q.update(i, e));
        lemma_pairs_map_update(q, i, e);
        assert(p.last() == u.last());
        assert(p[p.len() - 1].0@ != p[i].0@);
        assert(pairs_map(u) =~= pairs_map(p).insert(e.0@, e.1@));
    }
}

proof fn lemma_pairs_map_insert(p: Seq<(String, String)>, i: int, e: (String, String))
    requires
        0 <= i <= p.len(),
        forall|j: int| 0 <= j < p.len() ==> #[trigger] p[j].0@ != e.0@,
    ensures
        pairs_map(p.insert(i, e)) == pairs_map(p).insert(e.0@, e.1@),
    decreases p.len(),
{
    let u = p.insert(i, e);
    if i == p.len() {
        assert(u.drop_last() =~= p);
        assert(u.last() == e);
    } else {
        let q = p.drop_last();
        assert(u.drop_last() =~= q.insert(i, e));
        assert(u.last() == p.last());
        assert forall|j: int| 0 <= j < q.len() implies #[trigger] q[j].0@ != e.0@ by {
            assert(q[j] == p[j]);
        }
        lemma_pairs_map_insert(q, i, e);
        assert(p[p.len() - 1].0@ != e.0@);
        assert(pairs_map(u) =~= pairs_map(p).insert(e.0@, e.1@));
    }
}

/// Sets `name` to `value` in a list of (name, value) pairs sorted by name,
/// replacing the value it had, if any, and keeping the list sorted.
pub fn map_insert(m: &mut Vec<(String, String)>, name: String, value: String)
    requires
        sorted_names(old(m)@),
    ensures
        sorted_names(final(m)@),
        pairs_map(final(m)@) == pairs_map(old(m)@).insert(name@, value@),
{
    let ghost p = m@;
    let mut i: usize = 0;
    while i < m.len()
        invariant
            i <= p.len(),
            m@ == p,
            forall|j: int| 0 <= j < i ==> name_lt(#[trigger] p[j].0@, name@),
        ensures
            i <= p.len(),
            m@ == p,
            forall|j: int| 0 <= j < i ==> name_lt(#[trigger] p[j].0@, name@),
            i < p.len() ==> !name_lt(p[i as int].0@, name@),
        decreases p.len() - i,
    {
        if !name_less(m[i].0.as_str(), name.as_str()) {
            break;
        }
        i = i + 1;
    }
    proof {
        lemma_sorted_distinct(p);
    }
    let e = (name, value);
    let ghost ge = e;
    if i < m.len() && m[i].0 == e.0 {
        proof {
            lemma_pairs_map_update(p, i as int, ge);
        }
        m.set(i, e);
        assert forall|x: int, y: int| 0 <= x < y < m@.len() implies name_lt(
            #[trigger] m@[x].0@,
            #[trigger] m@[y].0@,
        ) by {
            assert(name_lt(p[x].0@, p[y].0@));
        }
    } else {
        proof {
            if i < p.len() {
                lemma_name_lt_total(p[i as int].0@, ge.0@);
            }
            assert forall|j: int| 0 <= j < p.len() implies #[trigger] p[j].0@ != ge.0@ by {
                if j < i {
                    assert(name_lt(p[j].0@, ge.0@));
                    lemma_name_lt_irrefl(ge.0@);
                } else {
                    if j > i {
                        assert(name_lt(p[i as int].0@, p[j].0@));
                        lemma_name_lt_trans(ge.0@, p[i as int].0@, p[j].0@);
                    }
                    lemma_name_lt_irrefl(ge.0@);
                }
            }
            lemma_pairs_map_insert(p, i as int, ge);
        }
        m.insert(i, e);
        assert(m@ == p.insert(i as int, ge));
        assert forall|x: int, y: int| 0 <= x < y < m@.len() implies name_lt(
            #[trigger] m@[x].0@,
            #[trigger] m@[y].0@,
        ) by {
            if y < i {
                assert(name_lt(p[x].0@, p[y].0@));
            } else if y == i {
                assert(name_lt(p[x].0@, ge.0@));
            } else if x == i {
                assert(m@[y] == p[y - 1]);
                if y - 1 > i {
                    assert(name_lt(p[i as int].0@, p[y - 1].0@));
                    lemma_name_lt_trans(ge.0@, p[i as int].0@, p[y - 1].0@);
                }
            } else if x < i {
                assert(m@[y] == p[y - 1]);
                assert(name_lt(p[x].0@, p[y - 1].0@));
            } else {
                assert(m@[x] == p[x - 1]);
                assert(m@[y] == p[y - 1]);
                assert(name_lt(p[x - 1].0@, p[y - 1].0@));
            }
        }
    }
}

/// Keeps the standard header `name` when the request has it with a readable
/// value.
fn keep_standard(hs: &Vec<HeaderEntry>, other: &mut Vec<(String, String)>, name: &str)
    requires
        sorted_names(old(other)@),
    ensures
        sorted_names(final(other)@),
        pairs_map(final(other)@) == with_standard(pairs_map(old(other)@), hs@, name@),
{
    match get_first(hs, name) {
        Some(v) => match header_value_str(v.as_slice()) {
            Some(text) => {
                map_insert(other, String::from_str(name), text);
            },
            None => {},
        },
        None => {},
    }
}

/// The headers of an upload request that are stored with the object: the
/// content type (see [`get_mime_type`]), the standard headers cache-control,
/// content-disposition, content-encoding, content-language and expires (their
/// first value), and every `x-amz-meta-` header (a later value of the same
/// name overriding an earlier one); values not readable as text are left
/// out.
pub fn get_headers(hs: &Vec<HeaderEntry>) -> (r: Result<ObjectVersionHeaders, ApiError>)
    ensures
        match first_value(hs@, "content-type"@) {
            None => r matches Ok(h) && h.content_type@ == "blob"@,
            Some(v) => if visible_ascii(v) {
                r matches Ok(h) && h.content_type@ == ascii_chars(v)
            } else {
                r matches Err(ApiError::InvalidHeader)
            },
        },
        r matches Ok(h) ==> h.wf() && h.other_map() == stored_headers_map(hs@),
{
    let content_type = get_mime_type(hs)?;
    let mut other: Vec<(String, String)> = Vec::new();
    assert(pairs_map(other@) =~= Map::<Seq<char>, Seq<char>>::empty());
    keep_standard(hs, &mut other, "cache-control");
    keep_standard(hs, &mut other, "content-disposition");
    keep_standard(hs, &mut other, "content-encoding");
    keep_standard(hs, &mut other, "content-language");
    keep_standard(hs, &mut other, "expires");
    assert(pairs_map(other@) == standard_map(hs@));
    let prefix = "x-amz-meta-";
    proof {
        reveal_strlit("x-amz-meta-");
    }
    let mut i: usize = 0;
    assert(hs@.take(0) =~= Seq::<HeaderEntry>::empty());
    while i < hs.len()
        invariant
            i <= hs@.len(),
            prefix@ == "x-amz-meta-"@,
            prefix@.len() == 11,
            sorted_names(other@),
            pairs_map(other@) == with_meta(standard_map(hs@), hs@.take(i as int)),
        decreases hs@.len() - i,
    {
        let e = &hs[i];
        assert(hs@.take(i + 1).drop_last() =~= hs@.take(i as int));
        assert(hs@.take(i + 1).last() == hs@[i as int]);
        if has_prefix(e.name.as_str(), prefix) {
            match header_value_str(e.value.as_slice()) {
                Some(text) => {
                    map_insert(&mut other, e.name.clone(), text);
                },
                None => {},
            }
        }
        i = i + 1;
    }
    assert(hs@.take(hs@.len() as int) =~= hs@);
    Ok(ObjectVersionHeaders { content_type, other })
}


/// The `content-md5` header of an upload request: its first value as text,
/// `None` when absent; a value not readable as text is refused.
pub fn get_content_md5(hs: &Vec<HeaderEntry>) -> (r: Result<Option<String>, ApiError>)
    ensures
        match first_value(hs@, "content-md5"@) {
            None => r matches Ok(None),
            Some(v) => if visible_ascii(v) {
                r matches Ok(Some(t)) && t@ == ascii_chars(v)
            } else {
                r matches Err(ApiError::InvalidHeader)
            },
        },
{
    match get_first(hs, "content-md5") {
        Some(v) => match header_value_str(v.as_slice()) {
            Some(s) => Ok(Some(s)),
            None => Err(ApiError::InvalidHeader),
        },
        None => Ok(None),
    }
}

} // verus!
