//! Paths, and when two spellings name the same one.
//!
//! A path is kept as it was spelled, and compared by its components. How a
//! spelling falls into components is the system's affair: where `/` is the only
//! separator it is done here, and elsewhere the caller says what they are.

use vstd::prelude::*;
use crate::text::chars_of;
use crate::text::copy_range;
use crate::text::find_char;
use crate::text::lemma_find_char;
use crate::text::same_chars;
use crate::text::same_text;
use crate::text::string_of;
use crate::text::texts_of;

verus! {

/// What two spellings of one path have in common.
#[verifier::ext_equal]
pub ghost struct PathKey {
    /// A drive or the like, where the system has such.
    pub prefix: Seq<char>,
    /// The path starts at the root.
    pub rooted: bool,
    pub parts: Seq<Seq<char>>,
}

/// What a path is: how it is spelled, and what that names.
#[verifier::ext_equal]
pub ghost struct PathView {
    pub spelling: Seq<char>,
    pub key: PathKey,
}

/// The run of characters that starts at `i` counts as a component.
pub open spec fn is_part(part: Seq<char>, i: int) -> bool {
    part.len() > 0 && (i == 0 || part != seq!['.'])
}

/// The components from position `i` on, where one starts.
pub open spec fn parts_from(s: Seq<char>, i: int) -> Seq<Seq<char>>
    decreases s.len() + 1 - i,
    when 0 <= i
{
    let end = find_char(s, i, '/');
    proof {
        lemma_find_char(s, i, '/');
    }
    let part = s.subrange(i, end);
    if i >= s.len() {
        seq![]
    } else if is_part(part, i) {
        seq![part] + parts_from(s, end + 1)
    } else {
        parts_from(s, end + 1)
    }
}

/// What a path names where `/` is the only separator: repeated and trailing
/// separators are ignored, and so is `.` anywhere but at the very beginning.
/// Nothing is looked up, so `..` is a component like any other.
pub open spec fn path_key(s: Seq<char>) -> PathKey {
    PathKey { prefix: seq![], rooted: s.len() > 0 && s[0] == '/', parts: parts_from(s, 0) }
}

fn find_separator(s: &[char], from: usize) -> (r: usize)
    requires
        from <= s@.len(),
    ensures
        from <= r <= s@.len(),
        r == find_char(s@, from as int, '/'),
{
    let mut i: usize = from;
    while i < s.len() && s[i] != '/'
        invariant
            from <= i <= s@.len(),
            find_char(s@, from as int, '/') == find_char(s@, i as int, '/'),
        decreases s@.len() - i,
    {
        i = i + 1;
    }
    i
}

/// The components of a path.
fn split_path(s: &[char]) -> (r: Vec<String>)
    ensures
        texts_of(r@) == parts_from(s@, 0),
{
    let mut out: Vec<String> = Vec::new();
    let mut i: usize = 0;
    assert(s.len() == s@.len());
    assert(texts_of(out@) + parts_from(s@, 0) =~= parts_from(s@, 0));
    while i < s.len()
        invariant
            i <= s@.len() <= usize::MAX,
            texts_of(out@) + parts_from(s@, i as int) == parts_from(s@, 0),
        decreases s@.len() - i,
    {
        let end: usize = find_separator(s, i);
        let part: Vec<char> = copy_range(s, i, end);
        let ghost before = texts_of(out@);
        let ghost rest = parts_from(s@, end + 1);
        let dot: [char; 1] = ['.'];
        assert(dot@ =~= seq!['.']);
        if end > i && (i == 0 || !same_chars(part.as_slice(), dot.as_slice())) {
            out.push(string_of(part.as_slice()));
            assert(texts_of(out@) =~= before.push(part@));
            assert(before.push(part@) + rest =~= before + (seq![part@] + rest));
        }
        if end == s.len() {
            assert(rest =~= seq![]);
            assert(parts_from(s@, end as int) =~= seq![]);
            i = end;
        } else {
            i = end + 1;
        }
    }
    assert(texts_of(out@) + seq![] =~= texts_of(out@));
    out
}

/// The path of an asset.
#[derive(Debug, Eq)]
pub struct AssetPath {
    spelling: String,
    prefix: String,
    rooted: bool,
    parts: Vec<String>,
}

impl View for AssetPath {
    type V = PathView;

    closed spec fn view(&self) -> PathView {
        PathView {
            spelling: self.spelling@,
            key: PathKey {
                prefix: self.prefix@,
                rooted: self.rooted,
                parts: texts_of(self.parts@),
            },
        }
    }
}

fn copy_texts(list: &Vec<String>) -> (r: Vec<String>)
    ensures
        texts_of(r@) == texts_of(list@),
{
    let mut out: Vec<String> = Vec::new();
    let mut i: usize = 0;
    while i < list.len()
        invariant
            i <= list@.len(),
            out@.len() == i,
            forall|k: int| 0 <= k < i ==> (#[trigger] out@[k])@ == list@[k]@,
        decreases list@.len() - i,
    {
        out.push(list[i].clone());
        i += 1;
    }
    assert(texts_of(out@) =~= texts_of(list@));
    out
}

fn same_texts(a: &Vec<String>, b: &Vec<String>) -> (r: bool)
    ensures
        r == (texts_of(a@) == texts_of(b@)),
{
    let ghost (p, q) = (texts_of(a@), texts_of(b@));
    assert(p.len() == a@.len() && q.len() == b@.len());
    if a.len() != b.len() {
        return false;
    }
    let mut i: usize = 0;
    while i < a.len()
        invariant
            i <= a@.len() == b@.len(),
            p == texts_of(a@),
            q == texts_of(b@),
            forall|k: int| 0 <= k < i ==> p[k] == q[k],
        decreases a@.len() - i,
    {
        if !same_text(a[i].as_str(), b[i].as_str()) {
            assert(p[i as int] != q[i as int]);
            return false;
        }
        i += 1;
    }
    assert(p =~= q);
    true
}

impl AssetPath {
    /// A path of a system on which `/` is the only separator.
    pub fn slashed(spelling: &str) -> (r: Self)
        ensures
            r@ == (PathView { spelling: spelling@, key: path_key(spelling@) }),
    {
        let s: Vec<char> = chars_of(spelling);
        let rooted: bool = s.len() > 0 && s[0] == '/';
        let r = AssetPath {
            spelling: String::from_str(spelling),
            prefix: String::new(),
            rooted,
            parts: split_path(s.as_slice()),
        };
        assert(r@.key.prefix =~= seq![]);
        r
    }

    /// A path that the system takes apart: its drive or the like, whether it
    /// starts at the root, and its other components.
    pub fn from_components(
        spelling: &str,
        prefix: &str,
        rooted: bool,
        parts: Vec<String>,
    ) -> (r: Self)
        ensures
            r@ == (PathView {
                spelling: spelling@,
                key: PathKey { prefix: prefix@, rooted, parts: texts_of(parts@) },
            }),
    {
        AssetPath {
            spelling: String::from_str(spelling),
            prefix: String::from_str(prefix),
            rooted,
            parts,
        }
    }

    /// The path as it was spelled.
    pub fn spelling(&self) -> (r: &String)
        ensures
            r@ == self@.spelling,
    {
        &self.spelling
    }

    /// Whether this is the same path as another, by their components.
    pub fn same(&self, other: &Self) -> (r: bool)
        ensures
            r == (self@.key == other@.key),
    {
        self.rooted == other.rooted && same_text(self.prefix.as_str(), other.prefix.as_str())
            && same_texts(&self.parts, &other.parts)
    }
}

impl PartialEq for AssetPath {
    fn eq(&self, other: &Self) -> (r: bool) {
        self.same(other)
    }
}

impl vstd::std_specs::cmp::PartialEqSpecImpl for AssetPath {
    open spec fn obeys_eq_spec() -> bool {
        true
    }

    open spec fn eq_spec(&self, other: &Self) -> bool {
        self@.key == other@.key
    }
}

impl Clone for AssetPath {
    fn clone(&self) -> (r: Self)
        ensures
            r@ == self@,
    {
        AssetPath {
            spelling: self.spelling.clone(),
            prefix: self.prefix.clone(),
            rooted: self.rooted,
            parts: copy_texts(&self.parts),
        }
    }
}

proof fn lemma_find_in_prefix(head: Seq<char>, whole: Seq<char>, i: int)
    requires
        0 <= i <= head.len(),
        head.len() <= whole.len(),
        whole.take(head.len() as int) == head,
        whole.len() > head.len() ==> whole[head.len() as int] == '/',
    ensures
        find_char(whole, i, '/') == find_char(head, i, '/'),
    decreases head.len() - i,
{
    if i < head.len() {
        assert(whole.take(head.len() as int)[i] == whole[i]);
        if head[i] != '/' {
            lemma_find_in_prefix(head, whole, i + 1);
        }
    }
}

proof fn lemma_find_in_suffix(x: Seq<char>, a: int, y: Seq<char>, b: int)
    requires
        0 <= a <= x.len(),
        0 <= b <= y.len(),
        x.skip(a) == y.skip(b),
    ensures
        find_char(x, a, '/') - a == find_char(y, b, '/') - b,
    decreases x.len() - a,
{
    assert(x.skip(a).len() == x.len() - a && y.skip(b).len() == y.len() - b);
    if a < x.len() {
        assert(x.skip(a)[0] == x[a] && y.skip(b)[0] == y[b]);
        if x[a] != '/' {
            assert(x.skip(a + 1) =~= x.skip(a).skip(1));
            assert(y.skip(b + 1) =~= y.skip(b).skip(1));
            lemma_find_in_suffix(x, a + 1, y, b + 1);
        }
    }
}

/// Behind the beginning, what remains of a path decides its components.
proof fn lemma_parts_of_suffix(x: Seq<char>, a: int, y: Seq<char>, b: int)
    requires
        0 < a <= x.len(),
        0 < b <= y.len(),
        x.skip(a) == y.skip(b),
    ensures
        parts_from(x, a) == parts_from(y, b),
    decreases x.len() - a,
{
    assert(x.skip(a).len() == x.len() - a && y.skip(b).len() == y.len() - b);
    if a < x.len() {
        let (p, q) = (find_char(x, a, '/'), find_char(y, b, '/'));
        lemma_find_char(x, a, '/');
        lemma_find_char(y, b, '/');
        lemma_find_in_suffix(x, a, y, b);
        assert(x.subrange(a, p) =~= x.skip(a).take(p - a));
        assert(y.subrange(b, q) =~= y.skip(b).take(q - b));
        if p == x.len() {
            assert(parts_from(x, p + 1) =~= seq![]);
            assert(parts_from(y, q + 1) =~= seq![]);
        } else {
            assert(x.skip(p + 1) =~= x.skip(a).skip(p + 1 - a));
            assert(y.skip(q + 1) =~= y.skip(b).skip(q + 1 - b));
            lemma_parts_of_suffix(x, p + 1, y, q + 1);
        }
    }
}

/// Two paths that share a head and then a separator differ at most in what
/// follows it.
proof fn lemma_parts_of_head(head: Seq<char>, x: Seq<char>, y: Seq<char>, i: int)
    requires
        0 <= i <= head.len(),
        head.len() < x.len(),
        head.len() < y.len(),
        x.take(head.len() as int) == head,
        y.take(head.len() as int) == head,
        x[head.len() as int] == '/',
        y[head.len() as int] == '/',
        parts_from(x, head.len() as int + 1) == parts_from(y, head.len() as int + 1),
    ensures
        parts_from(x, i) == parts_from(y, i),
    decreases head.len() - i,
{
    let end = find_char(head, i, '/');
    lemma_find_char(head, i, '/');
    lemma_find_in_prefix(head, x, i);
    lemma_find_in_prefix(head, y, i);
    assert(x.subrange(i, end) =~= x.take(head.len() as int).subrange(i, end));
    assert(y.subrange(i, end) =~= y.take(head.len() as int).subrange(i, end));
    if end < head.len() {
        lemma_parts_of_head(head, x, y, end + 1);
    }
}

proof fn lemma_parts_before_separator(head: Seq<char>, i: int)
    requires
        0 <= i <= head.len(),
    ensures
        parts_from(head + seq!['/'], i) == parts_from(head, i),
    decreases head.len() - i,
{
    let whole = head + seq!['/'];
    let end = find_char(head, i, '/');
    lemma_find_char(head, i, '/');
    assert(whole.take(head.len() as int) =~= head);
    lemma_find_in_prefix(head, whole, i);
    assert(whole.subrange(i, end) =~= head.subrange(i, end));
    if end < head.len() {
        lemma_parts_before_separator(head, end + 1);
    } else {
        assert(parts_from(whole, end + 1) =~= seq![]);
        assert(parts_from(head, end + 1) =~= seq![]);
    }
}

/// A separator that is repeated, one that trails, and a `.` between separators
/// name no other path.
pub proof fn law_spellings_of_one_path(head: Seq<char>, tail: Seq<char>)
    requires
        head.len() > 0,
    ensures
        path_key(head + seq!['/', '/'] + tail) == path_key(head + seq!['/'] + tail),
        path_key(head + seq!['/', '.', '/'] + tail) == path_key(head + seq!['/'] + tail),
        path_key(head + seq!['/']) == path_key(head),
{
    let n = head.len() as int;
    let plain = head + seq!['/'] + tail;
    let twice = head + seq!['/', '/'] + tail;
    let dotted = head + seq!['/', '.', '/'] + tail;
    assert(plain.take(n) =~= head && twice.take(n) =~= head && dotted.take(n) =~= head);
    assert(plain.skip(n + 1) =~= tail);
    assert(twice.skip(n + 2) =~= tail);
    assert(dotted.skip(n + 3) =~= tail);
    assert(find_char(twice, n + 1, '/') == n + 1);
    assert(find_char(dotted, n + 2, '/') == n + 2);
    assert(find_char(dotted, n + 1, '/') == n + 2);
    assert(dotted.subrange(n + 1, n + 2) =~= seq!['.']);
    lemma_parts_of_suffix(twice, n + 2, plain, n + 1);
    lemma_parts_of_suffix(dotted, n + 3, plain, n + 1);
    lemma_parts_of_head(head, twice, plain, 0);
    lemma_parts_of_head(head, dotted, plain, 0);
    lemma_parts_before_separator(head, 0);
    assert(plain[0] == head[0] && twice[0] == head[0] && dotted[0] == head[0]);
    assert((head + seq!['/'])[0] == head[0]);
}

} // verus!
