//! Decoding of the key-listing response body.
//!
//! The listing endpoint returns a JSON object whose `result` member is an
//! array of entries, each an object with a required `name` string and an
//! optional `metadata` member holding arbitrary JSON. Everything else — other
//! members of the top-level object, other members of an entry, and the whole
//! of each metadata value — is skipped without interpretation. The grammar is
//! defined by the specification functions in this module; the executable
//! decoder is proved to compute exactly what they describe.

use vstd::prelude::*;

verus! {

/// One key known to the remote namespace: its name, and the raw text of its
/// `metadata` member if the listing carried one. Metadata is kept verbatim
/// and never interpreted.
pub struct KeyEntry {
    pub name: String,
    pub metadata: Option<String>,
}

/// The mathematical model of a [`KeyEntry`].
pub struct EntryModel {
    pub name: Seq<char>,
    pub metadata: Option<Seq<char>>,
}

impl View for KeyEntry {
    type V = EntryModel;

    open spec fn view(&self) -> EntryModel {
        EntryModel {
            name: self.name@,
            metadata: match self.metadata {
                Option::None => Option::None,
                Option::Some(m) => Option::Some(m@),
            },
        }
    }
}

/// The names of a sequence of entries, in listing order.
pub open spec fn names_of(entries: Seq<EntryModel>) -> Seq<Seq<char>> {
    entries.map_values(|e: EntryModel| e.name)
}

/// JSON whitespace.
pub open spec fn is_ws(c: char) -> bool {
    c == ' ' || c == '\n' || c == '\r' || c == '\t'
}

/// A character that may appear in an unquoted scalar: a number or one of the
/// literals `true`, `false`, `null`. Scalars are skipped, never interpreted,
/// so the exact shape inside the run is not checked.
pub open spec fn atom_char(c: char) -> bool {
    ('0' <= c && c <= '9') || ('a' <= c && c <= 'z') || ('A' <= c && c <= 'Z') || c == '-' || c
        == '+' || c == '.'
}

/// `s` contains `c` somewhere.
pub open spec fn contains_char(s: Seq<char>, c: char) -> bool {
    exists|k: int| 0 <= k < s.len() && s[k] == c
}

/// The first position at or after `i` holding a non-whitespace character (or
/// the end of the text).
pub open spec fn ws_end(s: Seq<char>, i: int) -> int
    decreases s.len() - i,
{
    if 0 <= i < s.len() && is_ws(s[i]) {
        ws_end(s, i + 1)
    } else {
        i
    }
}

pub proof fn lemma_ws_end(s: Seq<char>, i: int)
    requires
        0 <= i <= s.len(),
    ensures
        i <= ws_end(s, i) <= s.len(),
    decreases s.len() - i,
{
    if i < s.len() && is_ws(s[i]) {
        lemma_ws_end(s, i + 1);
    }
}

/// Scans a JSON string body. `i` is the position just after the opening
/// quote; the result is the position just after the closing quote. A
/// backslash together with the character after it is skipped, so an escaped
/// quote does not end the string.
pub open spec fn str_end(s: Seq<char>, i: int) -> Option<int>
    decreases s.len() - i,
{
    if i < 0 || i >= s.len() {
        Option::None
    } else if s[i] == '"' {
        Option::Some(i + 1)
    } else if s[i] == '\\' {
        if i + 1 < s.len() {
            str_end(s, i + 2)
        } else {
            Option::None
        }
    } else {
        str_end(s, i + 1)
    }
}

pub proof fn lemma_str_end(s: Seq<char>, i: int)
    requires
        0 <= i,
    ensures
        str_end(s, i) is Some ==> i < str_end(s, i)->0 <= s.len(),
    decreases s.len() - i,
{
    if 0 <= i < s.len() {
        if s[i] == '\\' {
            if i + 1 < s.len() {
                lemma_str_end(s, i + 2);
            }
        } else if s[i] != '"' {
            lemma_str_end(s, i + 1);
        }
    }
}

/// The end of a run of scalar characters starting at `i`.
pub open spec fn atom_end(s: Seq<char>, i: int) -> int
    decreases s.len() - i,
{
    if 0 <= i < s.len() && atom_char(s[i]) {
        atom_end(s, i + 1)
    } else {
        i
    }
}

pub proof fn lemma_atom_end(s: Seq<char>, i: int)
    requires
        0 <= i <= s.len(),
    ensures
        i <= atom_end(s, i) <= s.len(),
    decreases s.len() - i,
{
    if i < s.len() && atom_char(s[i]) {
        lemma_atom_end(s, i + 1);
    }
}

/// Skips the remainder of a nested value. `i` is the position just after the
/// bracket that opened it and `depth` the number of brackets still open; the
/// result is the position just after the bracket that closes the outermost
/// one. Strings are skipped atomically, so brackets inside them do not
/// count; opening and closing brackets of the two kinds are not required to
/// correspond, since skipped values are not interpreted.
pub open spec fn depth_end(s: Seq<char>, i: int, depth: int) -> Option<int>
    decreases s.len() - i,
{
    if depth <= 0 {
        Option::Some(i)
    } else if i < 0 || i >= s.len() {
        Option::None
    } else if s[i] == '"' {
        proof {
            lemma_str_end(s, i + 1);
        }
        match str_end(s, i + 1) {
            Option::None => Option::None,
            Option::Some(j) => depth_end(s, j, depth),
        }
    } else if s[i] == '{' || s[i] == '[' {
        depth_end(s, i + 1, depth + 1)
    } else if s[i] == '}' || s[i] == ']' {
        depth_end(s, i + 1, depth - 1)
    } else {
        depth_end(s, i + 1, depth)
    }
}

pub proof fn lemma_depth_end(s: Seq<char>, i: int, depth: int)
    requires
        0 <= i,
        1 <= depth,
    ensures
        depth_end(s, i, depth) is Some ==> i < depth_end(s, i, depth)->0 <= s.len(),
    decreases s.len() - i,
{
    if 0 <= i < s.len() {
        if s[i] == '"' {
            lemma_str_end(s, i + 1);
            match str_end(s, i + 1) {
                Option::None => {},
                Option::Some(j) => {
                    lemma_depth_end(s, j, depth);
                },
            }
        } else if s[i] == '{' || s[i] == '[' {
            lemma_depth_end(s, i + 1, depth + 1);
        } else if s[i] == '}' || s[i] == ']' {
            if depth - 1 >= 1 {
                lemma_depth_end(s, i + 1, depth - 1);
            }
        } else {
            lemma_depth_end(s, i + 1, depth);
        }
    }
}

/// The end of one whole JSON value beginning at `i` (no leading whitespace):
/// a string, a bracketed object or array, or a scalar.
pub open spec fn value_end(s: Seq<char>, i: int) -> Option<int> {
    if i < 0 || i >= s.len() {
        Option::None
    } else if s[i] == '"' {
        str_end(s, i + 1)
    } else if s[i] == '{' || s[i] == '[' {
        depth_end(s, i + 1, 1)
    } else if atom_char(s[i]) {
        Option::Some(atom_end(s, i))
    } else {
        Option::None
    }
}

pub proof fn lemma_value_end(s: Seq<char>, i: int)
    requires
        0 <= i,
    ensures
        value_end(s, i) is Some ==> i < value_end(s, i)->0 <= s.len(),
{
    if 0 <= i < s.len() {
        if s[i] == '"' {
            lemma_str_end(s, i + 1);
        } else if s[i] == '{' || s[i] == '[' {
            lemma_depth_end(s, i + 1, 1);
        } else if atom_char(s[i]) {
            lemma_atom_end(s, i + 1);
        }
    }
}

/// The model of an `Option<String>`.
pub open spec fn opt_view(o: Option<String>) -> Option<Seq<char>> {
    match o {
        Option::None => Option::None,
        Option::Some(x) => Option::Some(x@),
    }
}

/// The models of a sequence of entries.
pub open spec fn entries_view(v: Seq<KeyEntry>) -> Seq<EntryModel> {
    v.map_values(|e: KeyEntry| e@)
}

/// One member value of an entry object, beginning at `v` (no leading
/// whitespace), under the member key `key`. `name` and `meta` hold what
/// earlier members of the same entry established; a member repeating a key
/// already seen makes the entry malformed. A `name` member must be a string
/// without escapes — a name is used verbatim as a file name component, and an
/// escaped one is refused rather than decoded. A `metadata` member may be any
/// value and is kept as raw text. Any other member is skipped. The result is
/// the updated pair together with the end of the member value.
pub open spec fn member_value(
    s: Seq<char>,
    v: int,
    key: Seq<char>,
    name: Option<Seq<char>>,
    meta: Option<Seq<char>>,
) -> Option<(Option<Seq<char>>, Option<Seq<char>>, int)> {
    if key == "name"@ {
        if name is Some {
            Option::None
        } else if 0 <= v < s.len() && s[v] == '"' {
            match str_end(s, v + 1) {
                Option::None => Option::None,
                Option::Some(nend) => {
                    let nm = s.subrange(v + 1, nend - 1);
                    if contains_char(nm, '\\') {
                        Option::None
                    } else {
                        Option::Some((Option::Some(nm), meta, nend))
                    }
                },
            }
        } else {
            Option::None
        }
    } else if key == "metadata"@ {
        if meta is Some {
            Option::None
        } else {
            match value_end(s, v) {
                Option::None => Option::None,
                Option::Some(vend) => Option::Some(
                    (name, Option::Some(s.subrange(v, vend)), vend),
                ),
            }
        }
    } else {
        match value_end(s, v) {
            Option::None => Option::None,
            Option::Some(vend) => Option::Some((name, meta, vend)),
        }
    }
}

pub proof fn lemma_member_value(
    s: Seq<char>,
    v: int,
    key: Seq<char>,
    name: Option<Seq<char>>,
    meta: Option<Seq<char>>,
)
    requires
        0 <= v,
    ensures
        member_value(s, v, key, name, meta) is Some ==> v < (member_value(
            s,
            v,
            key,
            name,
            meta,
        )->0).2 <= s.len(),
{
    if 0 <= v < s.len() && s[v] == '"' {
        lemma_str_end(s, v + 1);
    }
    lemma_value_end(s, v);
}

/// The members of one entry object. `i` is at the opening quote of a member
/// key (whitespace already skipped); `name` and `meta` hold what earlier
/// members established. The entry ends at its closing brace and must by then
/// have a `name`; an entry without one, an empty entry object, and a
/// trailing comma are all malformed.
pub open spec fn entry_members(
    s: Seq<char>,
    i: int,
    name: Option<Seq<char>>,
    meta: Option<Seq<char>>,
) -> Option<(EntryModel, int)>
    decreases s.len() - i,
{
    if i < 0 || i >= s.len() {
        Option::None
    } else if s[i] == '"' {
        match str_end(s, i + 1) {
            Option::None => Option::None,
            Option::Some(kend) => {
                let key = s.subrange(i + 1, kend - 1);
                let j = ws_end(s, kend);
                if j < s.len() && s[j] == ':' {
                    let v = ws_end(s, j + 1);
                    match member_value(s, v, key, name, meta) {
                        Option::None => Option::None,
                        Option::Some((n2, m2, vend)) => {
                            let w = ws_end(s, vend);
                            if w < s.len() && s[w] == ',' {
                                proof {
                                    lemma_str_end(s, i + 1);
                                    lemma_ws_end(s, kend);
                                    lemma_ws_end(s, j + 1);
                                    lemma_member_value(s, v, key, name, meta);
                                    lemma_ws_end(s, vend);
                                    lemma_ws_end(s, w + 1);
                                }
                                entry_members(s, ws_end(s, w + 1), n2, m2)
                            } else if w < s.len() && s[w] == '}' {
                                match n2 {
                                    Option::None => Option::None,
                                    Option::Some(nm) => Option::Some(
                                        (EntryModel { name: nm, metadata: m2 }, w + 1),
                                    ),
                                }
                            } else {
                                Option::None
                            }
                        },
                    }
                } else {
                    Option::None
                }
            },
        }
    } else {
        Option::None
    }
}

pub proof fn lemma_entry_members(
    s: Seq<char>,
    i: int,
    name: Option<Seq<char>>,
    meta: Option<Seq<char>>,
)
    requires
        0 <= i,
    ensures
        entry_members(s, i, name, meta) is Some ==> i < (entry_members(s, i, name, meta)->0).1
            <= s.len(),
    decreases s.len() - i,
{
    if 0 <= i < s.len() && s[i] == '"' {
        lemma_str_end(s, i + 1);
        match str_end(s, i + 1) {
            Option::None => {},
            Option::Some(kend) => {
                let key = s.subrange(i + 1, kend - 1);
                lemma_ws_end(s, kend);
                let j = ws_end(s, kend);
                if j < s.len() && s[j] == ':' {
                    lemma_ws_end(s, j + 1);
                    let v = ws_end(s, j + 1);
                    lemma_member_value(s, v, key, name, meta);
                    match member_value(s, v, key, name, meta) {
                        Option::None => {},
                        Option::Some((n2, m2, vend)) => {
                            lemma_ws_end(s, vend);
                            let w = ws_end(s, vend);
                            if w < s.len() && s[w] == ',' {
                                lemma_ws_end(s, w + 1);
                                lemma_entry_members(s, ws_end(s, w + 1), n2, m2);
                            }
                        },
                    }
                }
            },
        }
    }
}

/// One entry of the `result` array, beginning at `i` (no leading
/// whitespace): an object holding a `name` member.
pub open spec fn entry_of(s: Seq<char>, i: int) -> Option<(EntryModel, int)> {
    if 0 <= i < s.len() && s[i] == '{' {
        entry_members(s, ws_end(s, i + 1), Option::None, Option::None)
    } else {
        Option::None
    }
}

pub proof fn lemma_entry_of(s: Seq<char>, i: int)
    ensures
        entry_of(s, i) is Some ==> i < (entry_of(s, i)->0).1 <= s.len(),
{
    if 0 <= i < s.len() && s[i] == '{' {
        lemma_ws_end(s, i + 1);
        lemma_entry_members(s, ws_end(s, i + 1), Option::None, Option::None);
    }
}

/// The entries of a non-empty `result` array, beginning at the first entry.
/// `acc` holds the entries already parsed; the array ends at its closing
/// bracket, and a trailing comma is malformed.
pub open spec fn entry_list(s: Seq<char>, i: int, acc: Seq<EntryModel>) -> Option<
    (Seq<EntryModel>, int),
>
    decreases s.len() - i,
{
    match entry_of(s, i) {
        Option::None => Option::None,
        Option::Some((e, en)) => {
            let w = ws_end(s, en);
            if w < s.len() && s[w] == ',' {
                proof {
                    lemma_entry_of(s, i);
                    lemma_ws_end(s, en);
                    lemma_ws_end(s, w + 1);
                }
                entry_list(s, ws_end(s, w + 1), acc.push(e))
            } else if w < s.len() && s[w] == ']' {
                Option::Some((acc.push(e), w + 1))
            } else {
                Option::None
            }
        },
    }
}

pub proof fn lemma_entry_list(s: Seq<char>, i: int, acc: Seq<EntryModel>)
    requires
        0 <= i,
    ensures
        entry_list(s, i, acc) is Some ==> i < (entry_list(s, i, acc)->0).1 <= s.len(),
    decreases s.len() - i,
{
    match entry_of(s, i) {
        Option::None => {},
        Option::Some((e, en)) => {
            lemma_entry_of(s, i);
            lemma_ws_end(s, en);
            let w = ws_end(s, en);
            if w < s.len() && s[w] == ',' {
                lemma_ws_end(s, w + 1);
                lemma_entry_list(s, ws_end(s, w + 1), acc.push(e));
            }
        },
    }
}

/// The value of the `result` member, beginning at `i` (no leading
/// whitespace): an array of entries.
pub open spec fn result_entries(s: Seq<char>, i: int) -> Option<(Seq<EntryModel>, int)> {
    if 0 <= i < s.len() && s[i] == '[' {
        let j = ws_end(s, i + 1);
        if j < s.len() && s[j] == ']' {
            Option::Some((Seq::empty(), j + 1))
        } else {
            entry_list(s, j, Seq::empty())
        }
    } else {
        Option::None
    }
}

pub proof fn lemma_result_entries(s: Seq<char>, i: int)
    ensures
        result_entries(s, i) is Some ==> i < (result_entries(s, i)->0).1 <= s.len(),
{
    if 0 <= i < s.len() && s[i] == '[' {
        lemma_ws_end(s, i + 1);
        lemma_entry_list(s, ws_end(s, i + 1), Seq::empty());
    }
}

/// The members of the top-level response object. `i` is at the opening quote
/// of a member key (whitespace already skipped); `found` holds the entries of
/// a `result` member already seen. The object must hold exactly one `result`
/// member; every other member is skipped. An empty object, an object without
/// `result`, and a trailing comma are all malformed.
pub open spec fn top_members(s: Seq<char>, i: int, found: Option<Seq<EntryModel>>) -> Option<
    (Seq<EntryModel>, int),
>
    decreases s.len() - i,
{
    if i < 0 || i >= s.len() {
        Option::None
    } else if s[i] == '"' {
        match str_end(s, i + 1) {
            Option::None => Option::None,
            Option::Some(kend) => {
                let key = s.subrange(i + 1, kend - 1);
                let j = ws_end(s, kend);
                if j < s.len() && s[j] == ':' {
                    let v = ws_end(s, j + 1);
                    match top_member_value(s, v, key, found) {
                        Option::None => Option::None,
                        Option::Some((f2, vend)) => {
                            let w = ws_end(s, vend);
                            if w < s.len() && s[w] == ',' {
                                proof {
                                    lemma_str_end(s, i + 1);
                                    lemma_ws_end(s, kend);
                                    lemma_ws_end(s, j + 1);
                                    lemma_top_member_value(s, v, key, found);
                                    lemma_ws_end(s, vend);
                                    lemma_ws_end(s, w + 1);
                                }
                                top_members(s, ws_end(s, w + 1), f2)
                            } else if w < s.len() && s[w] == '}' {
                                match f2 {
                                    Option::None => Option::None,
                                    Option::Some(es) => Option::Some((es, w + 1)),
                                }
                            } else {
                                Option::None
                            }
                        },
                    }
                } else {
                    Option::None
                }
            },
        }
    } else {
        Option::None
    }
}

/// One member value of the top-level object, as [`member_value`] is for an
/// entry: a `result` member must be the entries array and may not repeat; any
/// other member is skipped.
pub open spec fn top_member_value(
    s: Seq<char>,
    v: int,
    key: Seq<char>,
    found: Option<Seq<EntryModel>>,
) -> Option<(Option<Seq<EntryModel>>, int)> {
    if key == "result"@ {
        if found is Some {
            Option::None
        } else {
            match result_entries(s, v) {
                Option::None => Option::None,
                Option::Some((es, vend)) => Option::Some((Option::Some(es), vend)),
            }
        }
    } else {
        match value_end(s, v) {
            Option::None => Option::None,
            Option::Some(vend) => Option::Some((found, vend)),
        }
    }
}

pub proof fn lemma_top_member_value(
    s: Seq<char>,
    v: int,
    key: Seq<char>,
    found: Option<Seq<EntryModel>>,
)
    requires
        0 <= v,
    ensures
        top_member_value(s, v, key, found) is Some ==> v < (top_member_value(
            s,
            v,
            key,
            found,
        )->0).1 <= s.len(),
{
    lemma_result_entries(s, v);
    lemma_value_end(s, v);
}

pub proof fn lemma_top_members(s: Seq<char>, i: int, found: Option<Seq<EntryModel>>)
    requires
        0 <= i,
    ensures
        top_members(s, i, found) is Some ==> i < (top_members(s, i, found)->0).1 <= s.len(),
    decreases s.len() - i,
{
    if 0 <= i < s.len() && s[i] == '"' {
        lemma_str_end(s, i + 1);
        match str_end(s, i + 1) {
            Option::None => {},
            Option::Some(kend) => {
                let key = s.subrange(i + 1, kend - 1);
                lemma_ws_end(s, kend);
                let j = ws_end(s, kend);
                if j < s.len() && s[j] == ':' {
                    lemma_ws_end(s, j + 1);
                    let v = ws_end(s, j + 1);
                    lemma_top_member_value(s, v, key, found);
                    match top_member_value(s, v, key, found) {
                        Option::None => {},
                        Option::Some((f2, vend)) => {
                            lemma_ws_end(s, vend);
                            let w = ws_end(s, vend);
                            if w < s.len() && s[w] == ',' {
                                lemma_ws_end(s, w + 1);
                                lemma_top_members(s, ws_end(s, w + 1), f2);
                            }
                        },
                    }
                }
            },
        }
    }
}

/// What the whole response body decodes to: the entries of its `result`
/// member, or nothing if the body is not a response object of the expected
/// shape followed only by whitespace.
pub open spec fn listing_entries(s: Seq<char>) -> Option<Seq<EntryModel>> {
    let i = ws_end(s, 0);
    if i < s.len() && s[i] == '{' {
        match top_members(s, ws_end(s, i + 1), Option::None) {
            Option::None => Option::None,
            Option::Some((es, e)) => {
                if ws_end(s, e) == s.len() {
                    Option::Some(es)
                } else {
                    Option::None
                }
            },
        }
    } else {
        Option::None
    }
}

/// The key names a body decodes to, in listing order.
pub open spec fn listing_names(s: Seq<char>) -> Option<Seq<Seq<char>>> {
    match listing_entries(s) {
        Option::None => Option::None,
        Option::Some(es) => Option::Some(names_of(es)),
    }
}

/// Character-for-character string equality.
fn str_eq(a: &str, b: &str) -> (r: bool)
    ensures
        r == (a@ == b@),
{
    let n = a.unicode_len();
    let m = b.unicode_len();
    if n != m {
        return false;
    }
    let mut k: usize = 0;
    while k < n
        invariant
            n == a@.len(),
            n == b@.len(),
            0 <= k <= n,
            forall|t: int| 0 <= t < k ==> a@[t] == b@[t],
        decreases n - k,
    {
        if a.get_char(k) != b.get_char(k) {
            return false;
        }
        k += 1;
    }
    proof {
        assert(a@ =~= b@);
    }
    true
}

/// Whether `s` contains the character `c`.
fn has_char(s: &str, c: char) -> (r: bool)
    ensures
        r == contains_char(s@, c),
{
    let n = s.unicode_len();
    let mut k: usize = 0;
    while k < n
        invariant
            n == s@.len(),
            0 <= k <= n,
            forall|t: int| 0 <= t < k ==> s@[t] != c,
        decreases n - k,
    {
        if s.get_char(k) == c {
            return true;
        }
        k += 1;
    }
    false
}

/// Advances past whitespace.
fn ws_scan(s: &str, i: usize, n: usize) -> (r: usize)
    requires
        i <= n,
        n == s@.len(),
    ensures
        r as int == ws_end(s@, i as int),
        i <= r <= n,
{
    let mut k: usize = i;
    loop
        invariant
            i <= k <= n,
            n == s@.len(),
            ws_end(s@, i as int) == ws_end(s@, k as int),
        decreases n - k,
    {
        if k >= n {
            return k;
        }
        let c = s.get_char(k);
        if c == ' ' || c == '\n' || c == '\r' || c == '\t' {
            k += 1;
        } else {
            return k;
        }
    }
}

/// Scans a string body, as [`str_end`] describes.
fn string_scan(s: &str, i: usize, n: usize) -> (r: Option<usize>)
    requires
        i <= n,
        n == s@.len(),
    ensures
        match r {
            Option::None => str_end(s@, i as int) is None,
            Option::Some(j) => str_end(s@, i as int) == Option::Some(j as int) && i < j <= n,
        },
{
    let mut k: usize = i;
    loop
        invariant
            i <= k <= n,
            n == s@.len(),
            str_end(s@, i as int) == str_end(s@, k as int),
        decreases n - k,
    {
        if k >= n {
            return Option::None;
        }
        let c = s.get_char(k);
        if c == '"' {
            return Option::Some(k + 1);
        }
        if c == '\\' {
            if k + 1 >= n {
                return Option::None;
            }
            k += 2;
        } else {
            k += 1;
        }
    }
}

/// Advances past a run of scalar characters.
fn atom_scan(s: &str, i: usize, n: usize) -> (r: usize)
    requires
        i <= n,
        n == s@.len(),
    ensures
        r as int == atom_end(s@, i as int),
        i <= r <= n,
{
    let mut k: usize = i;
    loop
        invariant
            i <= k <= n,
            n == s@.len(),
            atom_end(s@, i as int) == atom_end(s@, k as int),
        decreases n - k,
    {
        if k >= n {
            return k;
        }
        let c = s.get_char(k);
        if ('0' <= c && c <= '9') || ('a' <= c && c <= 'z') || ('A' <= c && c <= 'Z') || c == '-'
            || c == '+' || c == '.' {
            k += 1;
        } else {
            return k;
        }
    }
}

/// Skips a nested value from just after its opening bracket, as
/// [`depth_end`] describes.
fn nested_scan(s: &str, i: usize, n: usize) -> (r: Option<usize>)
    requires
        i <= n,
        n == s@.len(),
    ensures
        match r {
            Option::None => depth_end(s@, i as int, 1) is None,
            Option::Some(j) => depth_end(s@, i as int, 1) == Option::Some(j as int) && i < j
                <= n,
        },
{
    let mut k: usize = i;
    let mut depth: u128 = 1;
    loop
        invariant
            i <= k <= n,
            n == s@.len(),
            1 <= depth <= 1 + k - i,
            depth_end(s@, i as int, 1) == depth_end(s@, k as int, depth as int),
        decreases n - k,
    {
        if k >= n {
            return Option::None;
        }
        let c = s.get_char(k);
        if c == '"' {
            match string_scan(s, k + 1, n) {
                Option::None => {
                    return Option::None;
                },
                Option::Some(j) => {
                    k = j;
                },
            }
        } else if c == '{' || c == '[' {
            depth += 1;
            k += 1;
        } else if c == '}' || c == ']' {
            if depth == 1 {
                proof {
                    assert(depth_end(s@, k as int, depth as int) == depth_end(s@, k + 1, 0));
                }
                return Option::Some(k + 1);
            }
            depth -= 1;
            k += 1;
        } else {
            k += 1;
        }
    }
}

/// Skips one whole value, as [`value_end`] describes.
fn value_scan(s: &str, i: usize, n: usize) -> (r: Option<usize>)
    requires
        i <= n,
        n == s@.len(),
    ensures
        match r {
            Option::None => value_end(s@, i as int) is None,
            Option::Some(j) => value_end(s@, i as int) == Option::Some(j as int) && i < j <= n,
        },
{
    if i >= n {
        return Option::None;
    }
    let c = s.get_char(i);
    if c == '"' {
        let r = string_scan(s, i + 1, n);
        proof {
            assert(value_end(s@, i as int) == str_end(s@, i + 1));
        }
        r
    } else if c == '{' || c == '[' {
        let r = nested_scan(s, i + 1, n);
        proof {
            assert(value_end(s@, i as int) == depth_end(s@, i + 1, 1));
        }
        r
    } else if ('0' <= c && c <= '9') || ('a' <= c && c <= 'z') || ('A' <= c && c <= 'Z') || c
        == '-' || c == '+' || c == '.' {
        let e = atom_scan(s, i, n);
        proof {
            assert(atom_end(s@, i as int) == atom_end(s@, i + 1));
            lemma_atom_end(s@, i + 1);
        }
        Option::Some(e)
    } else {
        Option::None
    }
}

/// Decodes one entry object, as [`entry_of`] describes.
fn entry_scan(s: &str, i: usize, n: usize) -> (r: Option<(KeyEntry, usize)>)
    requires
        i <= n,
        n == s@.len(),
    ensures
        match r {
            Option::None => entry_of(s@, i as int) is None,
            Option::Some(p) => entry_of(s@, i as int) == Option::Some((p.0@, p.1 as int)) && i
                < p.1 <= n,
        },
{
    if i >= n || s.get_char(i) != '{' {
        return Option::None;
    }
    let mut k: usize = ws_scan(s, i + 1, n);
    let mut name: Option<String> = Option::None;
    let mut meta: Option<String> = Option::None;
    loop
        invariant
            i < k <= n,
            n == s@.len(),
            entry_of(s@, i as int) == entry_members(s@, k as int, opt_view(name), opt_view(meta)),
        decreases n - k,
    {
        if k >= n {
            return Option::None;
        }
        if s.get_char(k) != '"' {
            return Option::None;
        }
        let kend = match string_scan(s, k + 1, n) {
            Option::None => {
                return Option::None;
            },
            Option::Some(e) => e,
        };
        let key = s.substring_char(k + 1, kend - 1);
        let j = ws_scan(s, kend, n);
        if j >= n || s.get_char(j) != ':' {
            return Option::None;
        }
        let v = ws_scan(s, j + 1, n);
        let vend: usize;
        if str_eq(key, "name") {
            if name.is_some() {
                return Option::None;
            }
            if v >= n || s.get_char(v) != '"' {
                return Option::None;
            }
            let nend = match string_scan(s, v + 1, n) {
                Option::None => {
                    return Option::None;
                },
                Option::Some(e) => e,
            };
            let nm = s.substring_char(v + 1, nend - 1);
            if has_char(nm, '\\') {
                return Option::None;
            }
            name = Option::Some(nm.to_owned());
            vend = nend;
        } else if str_eq(key, "metadata") {
            if meta.is_some() {
                return Option::None;
            }
            let ve = match value_scan(s, v, n) {
                Option::None => {
                    return Option::None;
                },
                Option::Some(e) => e,
            };
            meta = Option::Some(s.substring_char(v, ve).to_owned());
            vend = ve;
        } else {
            let ve = match value_scan(s, v, n) {
                Option::None => {
                    return Option::None;
                },
                Option::Some(e) => e,
            };
            vend = ve;
        }
        let w = ws_scan(s, vend, n);
        if w < n && s.get_char(w) == ',' {
            k = ws_scan(s, w + 1, n);
        } else if w < n && s.get_char(w) == '}' {
            match name {
                Option::None => {
                    return Option::None;
                },
                Option::Some(nm) => {
                    return Option::Some((KeyEntry { name: nm, metadata: meta }, w + 1));
                },
            }
        } else {
            return Option::None;
        }
    }
}

/// Decodes the `result` array, as [`result_entries`] describes.
fn result_scan(s: &str, i: usize, n: usize) -> (r: Option<(Vec<KeyEntry>, usize)>)
    requires
        i <= n,
        n == s@.len(),
    ensures
        match r {
            Option::None => result_entries(s@, i as int) is None,
            Option::Some(p) => result_entries(s@, i as int) == Option::Some(
                (entries_view(p.0@), p.1 as int),
            ) && i < p.1 <= n,
        },
{
    if i >= n || s.get_char(i) != '[' {
        return Option::None;
    }
    let j = ws_scan(s, i + 1, n);
    if j < n && s.get_char(j) == ']' {
        proof {
            assert(entries_view(Seq::<KeyEntry>::empty()) =~= Seq::<EntryModel>::empty());
        }
        return Option::Some((Vec::new(), j + 1));
    }
    let mut k: usize = j;
    let mut acc: Vec<KeyEntry> = Vec::new();
    proof {
        assert(entries_view(acc@) =~= Seq::<EntryModel>::empty());
    }
    loop
        invariant
            i < k <= n,
            n == s@.len(),
            result_entries(s@, i as int) == entry_list(s@, k as int, entries_view(acc@)),
        decreases n - k,
    {
        let (e, en) = match entry_scan(s, k, n) {
            Option::None => {
                return Option::None;
            },
            Option::Some(p) => p,
        };
        let w = ws_scan(s, en, n);
        if w < n && s.get_char(w) == ',' {
            let ghost old_acc = acc@;
            acc.push(e);
            proof {
                assert(entries_view(old_acc.push(e)) =~= entries_view(old_acc).push(e@));
            }
            k = ws_scan(s, w + 1, n);
        } else if w < n && s.get_char(w) == ']' {
            let ghost old_acc = acc@;
            acc.push(e);
            proof {
                assert(entries_view(old_acc.push(e)) =~= entries_view(old_acc).push(e@));
            }
            return Option::Some((acc, w + 1));
        } else {
            return Option::None;
        }
    }
}

/// Decodes the members of the top-level object, as [`top_members`]
/// describes. `i` is just past the opening brace.
fn top_scan(s: &str, i: usize, n: usize) -> (r: Option<(Vec<KeyEntry>, usize)>)
    requires
        i <= n,
        n == s@.len(),
    ensures
        match r {
            Option::None => top_members(s@, ws_end(s@, i as int), Option::None) is None,
            Option::Some(p) => top_members(s@, ws_end(s@, i as int), Option::None)
                == Option::Some((entries_view(p.0@), p.1 as int)) && i <= p.1 <= n,
        },
{
    let mut k: usize = ws_scan(s, i, n);
    let mut found: Option<Vec<KeyEntry>> = Option::None;
    loop
        invariant
            i <= k <= n,
            n == s@.len(),
            top_members(s@, ws_end(s@, i as int), Option::None) == top_members(
                s@,
                k as int,
                match found {
                    Option::None => Option::None,
                    Option::Some(v) => Option::Some(entries_view(v@)),
                },
            ),
        decreases n - k,
    {
        if k >= n {
            return Option::None;
        }
        if s.get_char(k) != '"' {
            return Option::None;
        }
        let kend = match string_scan(s, k + 1, n) {
            Option::None => {
                return Option::None;
            },
            Option::Some(e) => e,
        };
        let key = s.substring_char(k + 1, kend - 1);
        let j = ws_scan(s, kend, n);
        if j >= n || s.get_char(j) != ':' {
            return Option::None;
        }
        let v = ws_scan(s, j + 1, n);
        let vend: usize;
        if str_eq(key, "result") {
            if found.is_some() {
                return Option::None;
            }
            let (es, ve) = match result_scan(s, v, n) {
                Option::None => {
                    return Option::None;
                },
                Option::Some(p) => p,
            };
            found = Option::Some(es);
            vend = ve;
        } else {
            let ve = match value_scan(s, v, n) {
                Option::None => {
                    return Option::None;
                },
                Option::Some(e) => e,
            };
            vend = ve;
        }
        let w = ws_scan(s, vend, n);
        if w < n && s.get_char(w) == ',' {
            k = ws_scan(s, w + 1, n);
        } else if w < n && s.get_char(w) == '}' {
            match found {
                Option::None => {
                    return Option::None;
                },
                Option::Some(es) => {
                    return Option::Some((es, w + 1));
                },
            }
        } else {
            return Option::None;
        }
    }
}

/// Decodes a whole key-listing response body into its entries. Returns
/// nothing exactly when the body is not of the expected shape, which a run
/// reports as a decode failure.
pub fn parse_key_listing(body: &str) -> (r: Option<Vec<KeyEntry>>)
    ensures
        r is Some <==> listing_entries(body@) is Some,
        r is Some ==> listing_entries(body@) == Option::Some(entries_view(r->0@)),
{
    let n = body.unicode_len();
    let i = ws_scan(body, 0, n);
    if i >= n || body.get_char(i) != '{' {
        return Option::None;
    }
    let (es, e) = match top_scan(body, i + 1, n) {
        Option::None => {
            return Option::None;
        },
        Option::Some(p) => p,
    };
    let t = ws_scan(body, e, n);
    if t == n {
        Option::Some(es)
    } else {
        Option::None
    }
}

} // verus!
