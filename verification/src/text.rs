//! Character-level helpers for names and paths.
//!
//! Paths are held as strings whose components are separated by `/`. Every
//! contract here is stated over the character sequence of the text.

use vstd::prelude::*;

verus! {

/// `pattern` occurs in `text` starting at position `at`.
pub open spec fn occurs_at(text: Seq<char>, at: int, pattern: Seq<char>) -> bool {
    &&& 0 <= at
    &&& at + pattern.len() <= text.len()
    &&& text.subrange(at, at + pattern.len()) == pattern
}

/// `pattern` occurs somewhere in `text`.
pub open spec fn occurs_in(text: Seq<char>, pattern: Seq<char>) -> bool {
    exists|at: int| occurs_at(text, at, pattern)
}

/// The position just behind the last `/` of `path`, or 0 when it has none.
pub open spec fn name_start(path: Seq<char>) -> int
    decreases path.len(),
{
    if path.len() == 0 {
        0
    } else if path.last() == '/' {
        path.len() as int
    } else {
        name_start(path.drop_last())
    }
}

/// The last component of `path`: what follows its last `/`.
pub open spec fn file_name(path: Seq<char>) -> Seq<char> {
    path.skip(name_start(path))
}

/// A name is hidden when it begins with a dot.
pub open spec fn is_hidden_name(name: Seq<char>) -> bool {
    name.len() > 0 && name[0] == '.'
}

/// Some component of the relative path `rel` begins with a dot.
pub open spec fn has_hidden_component(rel: Seq<char>) -> bool {
    exists|i: int| component_is_hidden_at(rel, i)
}

/// A component of `rel` starts at `i` and begins with a dot.
pub open spec fn component_is_hidden_at(rel: Seq<char>, i: int) -> bool {
    &&& 0 <= i < rel.len()
    &&& rel[i] == '.'
    &&& (i == 0 || rel[i - 1] == '/')
}

/// `root` and `rel` put together, with one `/` between them unless `root`
/// is empty or already ends in one.
pub open spec fn joined(root: Seq<char>, rel: Seq<char>) -> Seq<char> {
    if root.len() == 0 || root.last() == '/' {
        root + rel
    } else {
        root + seq!['/'] + rel
    }
}

/// `path` is `root` itself or lies below it.
pub open spec fn is_under(path: Seq<char>, root: Seq<char>) -> bool {
    &&& root.is_prefix_of(path)
    &&& (path.len() == root.len() || (root.len() > 0 && root.last() == '/') || path[root.len() as int]
        == '/')
}

/// A file name that has the extension `json`: it ends in `.json` and has
/// something in front of that.
pub open spec fn has_json_extension(path: Seq<char>) -> bool {
    let name = file_name(path);
    name.len() > 5 && seq!['.', 'j', 's', 'o', 'n'].is_suffix_of(name)
}

/// What is joined to a root lies below it.
pub proof fn lemma_joined_is_under(root: Seq<char>, rel: Seq<char>)
    requires
        root.len() > 0,
    ensures
        is_under(joined(root, rel), root),
{
    let path = joined(root, rel);
    assert(path.subrange(0, root.len() as int) =~= root);
}

/// The last component begins within the path, right behind a `/` if behind
/// anything, and holds no `/` itself.
pub proof fn lemma_name_start_bounds(path: Seq<char>)
    ensures
        0 <= name_start(path) <= path.len(),
        name_start(path) > 0 ==> path[name_start(path) - 1] == '/',
        forall|i: int| name_start(path) <= i < path.len() ==> path[i] != '/',
    decreases path.len(),
{
    if path.len() > 0 && path.last() != '/' {
        let front = path.drop_last();
        lemma_name_start_bounds(front);
        assert forall|i: int| name_start(path) <= i < path.len() implies path[i] != '/' by {
            if i < front.len() {
                assert(front[i] == path[i]);
            }
        }
        if name_start(path) > 0 {
            assert(front[name_start(path) - 1] == path[name_start(path) - 1]);
        }
    }
}

/// The characters of a string.
pub fn chars_of(text: &str) -> (chars: Vec<char>)
    ensures
        chars@ == text@,
{
    let mut chars: Vec<char> = Vec::new();
    for c in it: text.chars()
        invariant
            chars@ == it.seq().take(it.index() as int),
    {
        chars.push(c);
    }
    chars
}

/// Tells whether `pattern` occurs in `text` at position `at`.
pub fn matches_at(text: &[char], at: usize, pattern: &[char]) -> (found: bool)
    ensures
        found == occurs_at(text@, at as int, pattern@),
{
    if pattern.len() > text.len() || at > text.len() - pattern.len() {
        return false;
    }
    let mut k: usize = 0;
    while k < pattern.len()
        invariant
            k <= pattern.len(),
            at + pattern.len() <= text.len(),
            forall|j: int| 0 <= j < k ==> text@[at + j] == pattern@[j],
        decreases pattern.len() - k,
    {
        if text[at + k] != pattern[k] {
            assert(text@.subrange(at as int, at + pattern.len())[k as int] == text@[at + k]);
            return false;
        }
        k += 1;
    }
    assert(text@.subrange(at as int, at + pattern.len()) =~= pattern@);
    true
}

/// Tells whether `text` begins with `pattern`.
pub fn starts_with(text: &[char], pattern: &[char]) -> (found: bool)
    ensures
        found == pattern@.is_prefix_of(text@),
{
    matches_at(text, 0, pattern)
}

/// Tells whether `text` ends with `pattern`.
pub fn ends_with(text: &[char], pattern: &[char]) -> (found: bool)
    ensures
        found == pattern@.is_suffix_of(text@),
{
    if pattern.len() > text.len() {
        return false;
    }
    matches_at(text, text.len() - pattern.len(), pattern)
}

/// Tells whether `pattern` occurs anywhere in `text`.
pub fn contains(text: &[char], pattern: &[char]) -> (found: bool)
    ensures
        found == occurs_in(text@, pattern@),
{
    if pattern.len() > text.len() {
        return false;
    }
    let last: usize = text.len() - pattern.len();
    let mut at: usize = 0;
    while at <= last
        invariant
            last == text.len() - pattern.len(),
            at <= last + 1,
            pattern.len() == 0 ==> at == 0,
            forall|j: int| 0 <= j < at ==> !occurs_at(text@, j, pattern@),
        decreases last + 1 - at,
    {
        if matches_at(text, at, pattern) {
            return true;
        }
        assert(pattern.len() > 0) by {
            if pattern.len() == 0 {
                assert(text@.subrange(0, 0) =~= pattern@);
            }
        }
        at += 1;
    }
    false
}

/// The position at which the last component of `path` begins.
pub fn find_name_start(path: &[char]) -> (start: usize)
    ensures
        start == name_start(path@),
        start <= path.len(),
{
    let mut end: usize = path.len();
    proof {
        lemma_name_start_bounds(path@);
        assert(path@.take(end as int) =~= path@);
    }
    while end > 0
        invariant
            end <= path.len(),
            name_start(path@) == name_start(path@.take(end as int)),
            0 <= name_start(path@) <= path.len(),
        decreases end,
    {
        if path[end - 1] == '/' {
            assert(path@.take(end as int).last() == '/');
            return end;
        }
        assert(path@.take(end as int).drop_last() =~= path@.take(end - 1));
        end -= 1;
    }
    0
}

/// Tells whether some component of the relative path `rel`, read from
/// position `from` on, begins with a dot.
pub fn any_hidden_component(rel: &[char], from: usize) -> (hidden: bool)
    requires
        from <= rel.len(),
    ensures
        hidden == has_hidden_component(rel@.skip(from as int)),
{
    let ghost tail = rel@.skip(from as int);
    let mut i: usize = from;
    while i < rel.len()
        invariant
            from <= i <= rel.len(),
            tail == rel@.skip(from as int),
            forall|j: int| 0 <= j < i - from ==> !component_is_hidden_at(tail, j),
        decreases rel.len() - i,
    {
        if rel[i] == '.' && (i == from || rel[i - 1] == '/') {
            assert(component_is_hidden_at(tail, i - from));
            return true;
        }
        i += 1;
    }
    false
}

/// Tells whether a file or directory of this name is hidden.
pub fn is_hidden(name: &str) -> (hidden: bool)
    ensures
        hidden == is_hidden_name(name@),
{
    let chars = chars_of(name);
    chars.len() > 0 && chars[0] == '.'
}

/// Puts a root and a relative path together.
pub fn join_path(root: &str, rel: &str) -> (path: String)
    ensures
        path@ == joined(root@, rel@),
{
    let root_chars = chars_of(root);
    let mut path = root.to_owned();
    if root_chars.len() > 0 && root_chars[root_chars.len() - 1] != '/' {
        path.append("/");
        proof {
            reveal_strlit("/");
            assert("/"@ =~= seq!['/']);
        }
    }
    path.append(rel);
    path
}

/// Tells whether `path` is `root` or lies below it.
pub fn path_is_under(path: &[char], root: &[char]) -> (under: bool)
    ensures
        under == is_under(path@, root@),
{
    if !starts_with(path, root) {
        return false;
    }
    path.len() == root.len() || (root.len() > 0 && root[root.len() - 1] == '/') || path[root.len()]
        == '/'
}

/// Tells whether the last component of `path` has the extension `json`.
pub fn path_has_json_extension(path: &[char]) -> (json: bool)
    ensures
        json == has_json_extension(path@),
{
    let start = find_name_start(path);
    let n = path.len() - start;
    if n <= 5 {
        return false;
    }
    let e = path.len();
    let json = path[e - 5] == '.' && path[e - 4] == 'j' && path[e - 3] == 's' && path[e - 2] == 'o'
        && path[e - 1] == 'n';
    proof {
        let name = file_name(path@);
        let ext = seq!['.', 'j', 's', 'o', 'n'];
        let tail = name.subrange(name.len() - 5, name.len() as int);
        assert(forall|k: int| 0 <= k < 5 ==> tail[k] == path@[e - 5 + k]);
        if json {
            assert(tail =~= ext);
        } else {
            assert(tail[0] == path@[e - 5]);
            assert(tail[1] == path@[e - 4]);
            assert(tail[2] == path@[e - 3]);
            assert(tail[3] == path@[e - 2]);
            assert(tail[4] == path@[e - 1]);
        }
    }
    json
}

/// `first` followed by `second`.
pub fn concat_text(first: &str, second: &str) -> (text: String)
    ensures
        text@ == first@ + second@,
{
    let mut text = first.to_owned();
    text.append(second);
    text
}

/// `path` in double quotes.
pub open spec fn quoted(path: Seq<char>) -> Seq<char> {
    seq!['"'] + path + seq!['"']
}

/// Puts `path` in double quotes, as it is shown in messages.
pub fn quote(path: &str) -> (text: String)
    ensures
        text@ == quoted(path@),
{
    let mut text = "\"".to_owned();
    proof {
        reveal_strlit("\"");
        assert("\""@ =~= seq!['"']);
    }
    text.append(path);
    text.append("\"");
    text
}

/// A copy of a list of strings.
pub fn clone_strings(list: &Vec<String>) -> (copy: Vec<String>)
    ensures
        copy.deep_view() == list.deep_view(),
{
    let mut copy: Vec<String> = Vec::new();
    let mut i: usize = 0;
    while i < list.len()
        invariant
            i <= list.len(),
            copy.deep_view() == list.deep_view().take(i as int),
        decreases list.len() - i,
    {
        let ghost before = copy.deep_view();
        let item = list[i].clone();
        copy.push(item);
        assert(copy.deep_view() =~= before.push(item@));
        assert(before.push(item@) =~= list.deep_view().take(i + 1));
        i += 1;
    }
    assert(list.deep_view().take(i as int) =~= list.deep_view());
    copy
}

/// A result whose two sides are texts, as character sequences.
pub open spec fn text_result(r: Result<String, String>) -> Result<Seq<char>, Seq<char>> {
    match r {
        Ok(text) => Ok(text@),
        Err(why) => Err(why@),
    }
}

/// A result that carries a text on failure only, as a character sequence.
pub open spec fn unit_result(r: Result<(), String>) -> Result<(), Seq<char>> {
    match r {
        Ok(_) => Ok(()),
        Err(why) => Err(why@),
    }
}

/// What is taken off the ends of a text: white space, or one character.
#[derive(Debug, Clone, Copy, PartialEq, Eq, Structural)]
pub enum Strip {
    Space,
    Exactly(char),
}

/// White space as `char::is_whitespace` knows it.
pub open spec fn is_space(c: char) -> bool {
    let n = c as u32;
    (0x09 <= n <= 0x0d) || n == 0x20 || n == 0x85 || n == 0xa0 || n == 0x1680 || (0x2000 <= n
        <= 0x200a) || n == 0x2028 || n == 0x2029 || n == 0x202f || n == 0x205f || n == 0x3000
}

/// `c` is among what `what` takes off.
pub open spec fn strips(what: Strip, c: char) -> bool {
    match what {
        Strip::Space => is_space(c),
        Strip::Exactly(x) => c == x,
    }
}

/// The number of characters at the start of `text` that `what` takes off.
pub open spec fn leading(text: Seq<char>, what: Strip) -> int
    decreases text.len(),
{
    if text.len() > 0 && strips(what, text.first()) {
        1 + leading(text.drop_first(), what)
    } else {
        0
    }
}

/// The number of characters at the end of `text` that `what` takes off.
pub open spec fn trailing(text: Seq<char>, what: Strip) -> int
    decreases text.len(),
{
    if text.len() > 0 && strips(what, text.last()) {
        1 + trailing(text.drop_last(), what)
    } else {
        0
    }
}

/// `text` without what `what` takes off at its start and at its end.
pub open spec fn stripped(text: Seq<char>, what: Strip) -> Seq<char> {
    let rest = text.skip(leading(text, what));
    rest.take(rest.len() - trailing(rest, what))
}

/// `text` without the white space at its start and at its end.
pub open spec fn trimmed(text: Seq<char>) -> Seq<char> {
    stripped(text, Strip::Space)
}

/// No more is taken off the start of a text than the text holds.
pub proof fn lemma_leading(text: Seq<char>, what: Strip)
    ensures
        0 <= leading(text, what) <= text.len(),
    decreases text.len(),
{
    if text.len() > 0 && strips(what, text.first()) {
        lemma_leading(text.drop_first(), what);
    }
}

/// No more is taken off the end of a text than the text holds.
pub proof fn lemma_trailing(text: Seq<char>, what: Strip)
    ensures
        0 <= trailing(text, what) <= text.len(),
    decreases text.len(),
{
    if text.len() > 0 && strips(what, text.last()) {
        lemma_trailing(text.drop_last(), what);
    }
}

/// Tells whether `what` takes `c` off.
pub fn is_stripped(what: Strip, c: char) -> (off: bool)
    ensures
        off == strips(what, c),
{
    match what {
        Strip::Space => {
            let n: u32 = c as u32;
            (0x09 <= n && n <= 0x0d) || n == 0x20 || n == 0x85 || n == 0xa0 || n == 0x1680 || (
            0x2000 <= n && n <= 0x200a) || n == 0x2028 || n == 0x2029 || n == 0x202f || n
                == 0x205f || n == 0x3000
        },
        Strip::Exactly(x) => c == x,
    }
}

/// Where the part of `text` between `from` and `to` begins and ends once
/// `what` is taken off its two ends.
pub fn strip_bounds(text: &[char], from: usize, to: usize, what: Strip) -> (bounds: (usize, usize))
    requires
        from <= to <= text.len(),
    ensures
        from <= bounds.0 <= bounds.1 <= to,
        text@.subrange(bounds.0 as int, bounds.1 as int) == stripped(
            text@.subrange(from as int, to as int),
            what,
        ),
{
    let ghost part = text@.subrange(from as int, to as int);
    let mut start: usize = from;
    proof {
        lemma_leading(part, what);
        assert(part.skip(0) =~= part);
    }
    while start < to && is_stripped(what, text[start])
        invariant
            from <= start <= to <= text.len(),
            part == text@.subrange(from as int, to as int),
            leading(part, what) == (start - from) + leading(part.skip(start - from), what),
        decreases to - start,
    {
        assert(part.skip(start - from).first() == text@[start as int]);
        assert(part.skip(start - from).drop_first() =~= part.skip(start + 1 - from));
        start += 1;
    }
    assert(leading(part, what) == start - from) by {
        if start < to {
            assert(part.skip(start - from).first() == text@[start as int]);
        }
    }
    let ghost rest = part.skip(start - from);
    let mut end: usize = to;
    proof {
        lemma_trailing(rest, what);
        assert(rest.take(rest.len() as int) =~= rest);
    }
    while end > start && is_stripped(what, text[end - 1])
        invariant
            from <= start <= end <= to <= text.len(),
            part == text@.subrange(from as int, to as int),
            rest == part.skip(start - from),
            trailing(rest, what) == (to - end) + trailing(rest.take(end - start), what),
        decreases end,
    {
        assert(rest.take(end - start).last() == text@[end - 1]);
        assert(rest.take(end - start).drop_last() =~= rest.take(end - 1 - start));
        end -= 1;
    }
    assert(trailing(rest, what) == to - end) by {
        if end > start {
            assert(rest.take(end - start).last() == text@[end - 1]);
        }
    }
    assert(stripped(part, what) =~= text@.subrange(start as int, end as int));
    (start, end)
}

/// Tells whether two texts are the same.
pub fn same_chars(first: &[char], second: &[char]) -> (same: bool)
    ensures
        same == (first@ == second@),
{
    if first.len() != second.len() {
        return false;
    }
    let same = matches_at(first, 0, second);
    assert(first@.subrange(0, second@.len() as int) =~= first@);
    same
}

/// The position of the first `c` in `text`, or -1 where it has none.
pub open spec fn first_index_of(text: Seq<char>, c: char) -> int
    decreases text.len(),
{
    if text.len() == 0 {
        -1
    } else if text.first() == c {
        0
    } else {
        let rest = first_index_of(text.drop_first(), c);
        if rest < 0 {
            -1
        } else {
            rest + 1
        }
    }
}

/// `first_index_of` gives a position at which `c` stands and before which
/// it does not, or -1 where `c` does not occur at all.
pub proof fn lemma_first_index_of(text: Seq<char>, c: char)
    ensures
        -1 <= first_index_of(text, c) < text.len(),
        first_index_of(text, c) >= 0 ==> text[first_index_of(text, c)] == c,
        forall|j: int|
            0 <= j < text.len() && (first_index_of(text, c) < 0 || j < first_index_of(text, c))
                ==> text[j] != c,
    decreases text.len(),
{
    if text.len() > 0 && text.first() != c {
        let rest = text.drop_first();
        lemma_first_index_of(rest, c);
        assert forall|j: int|
            0 <= j < text.len() && (first_index_of(text, c) < 0 || j < first_index_of(
                text,
                c,
            )) implies text[j] != c by {
            if j > 0 {
                assert(rest[j - 1] == text[j]);
            }
        }
    }
}

/// `c` is `letter`, a lowercase ASCII letter, or its capital.
pub open spec fn folds_to(c: char, letter: char) -> bool {
    c == letter || ('A' <= c <= 'Z' && c as u32 + 32 == letter as u32)
}

/// `text` is `word`, a word of lowercase ASCII letters, in whatever case.
pub open spec fn same_ignoring_case(text: Seq<char>, word: Seq<char>) -> bool {
    &&& text.len() == word.len()
    &&& forall|i: int| 0 <= i < text.len() ==> folds_to(#[trigger] text[i], word[i])
}

/// Tells whether `text` is `word`, a word of lowercase ASCII letters, in
/// whatever case.
pub fn is_word(text: &[char], word: &[char]) -> (same: bool)
    ensures
        same == same_ignoring_case(text@, word@),
{
    if text.len() != word.len() {
        return false;
    }
    let mut i: usize = 0;
    while i < text.len()
        invariant
            i <= text.len(),
            text.len() == word.len(),
            forall|j: int| 0 <= j < i ==> folds_to(#[trigger] text@[j], word@[j]),
        decreases text.len() - i,
    {
        let c = text[i];
        let w = word[i];
        let folds = c == w || ('A' <= c && c <= 'Z' && (c as u32) + 32 == (w as u32));
        if !folds {
            assert(!folds_to(text@[i as int], word@[i as int]));
            return false;
        }
        i += 1;
    }
    true
}

/// `a` comes before `b` in dictionary order, characters compared by their
/// code.
pub open spec fn text_before(a: Seq<char>, b: Seq<char>) -> bool
    decreases a.len(),
{
    if b.len() == 0 {
        false
    } else if a.len() == 0 {
        true
    } else if a.first() != b.first() {
        a.first() < b.first()
    } else {
        text_before(a.drop_first(), b.drop_first())
    }
}

/// No text comes before itself, and of two texts at most one comes before
/// the other.
pub proof fn lemma_text_before_asymmetric(a: Seq<char>, b: Seq<char>)
    ensures
        !(text_before(a, b) && text_before(b, a)),
        !text_before(a, a),
    decreases a.len(),
{
    if a.len() > 0 {
        lemma_text_before_asymmetric(a.drop_first(), a.drop_first());
        if b.len() > 0 && a.first() == b.first() {
            lemma_text_before_asymmetric(a.drop_first(), b.drop_first());
        }
    }
}

/// Of two different texts one comes before the other.
pub proof fn lemma_text_before_total(a: Seq<char>, b: Seq<char>)
    requires
        a != b,
    ensures
        text_before(a, b) || text_before(b, a),
    decreases a.len(),
{
    if a.len() > 0 && b.len() > 0 && a.first() == b.first() {
        if a.drop_first() == b.drop_first() {
            assert(a =~= seq![a.first()] + a.drop_first());
            assert(b =~= seq![b.first()] + b.drop_first());
        }
        lemma_text_before_total(a.drop_first(), b.drop_first());
    } else if a.len() == 0 && b.len() == 0 {
        assert(a =~= b);
    }
}

/// What comes before a text comes before all that the text comes before.
pub proof fn lemma_text_before_transitive(a: Seq<char>, b: Seq<char>, c: Seq<char>)
    requires
        text_before(a, b),
        text_before(b, c),
    ensures
        text_before(a, c),
    decreases a.len(),
{
    if a.len() > 0 && a.first() == b.first() && b.first() == c.first() {
        lemma_text_before_transitive(a.drop_first(), b.drop_first(), c.drop_first());
    }
}

/// Tells whether `a` comes before `b` in dictionary order.
pub fn is_before(a: &[char], b: &[char]) -> (before: bool)
    ensures
        before == text_before(a@, b@),
{
    let mut i: usize = 0;
    assert(a@.skip(0) =~= a@);
    assert(b@.skip(0) =~= b@);
    while i < a.len() && i < b.len()
        invariant
            i <= a.len(),
            i <= b.len(),
            text_before(a@, b@) == text_before(a@.skip(i as int), b@.skip(i as int)),
        decreases a.len() - i,
    {
        assert(a@.skip(i as int).first() == a@[i as int]);
        assert(b@.skip(i as int).first() == b@[i as int]);
        if a[i] != b[i] {
            return a[i] < b[i];
        }
        assert(a@.skip(i as int).drop_first() =~= a@.skip(i + 1));
        assert(b@.skip(i as int).drop_first() =~= b@.skip(i + 1));
        i += 1;
    }
    i < b.len()
}

} // verus!
