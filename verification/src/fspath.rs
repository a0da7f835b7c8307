//! Relative filesystem paths as component sequences.
//!
//! The store addresses every record and index entry by a path made of plain
//! ASCII components.  An identifier's canonical string is sharded into a
//! `2 / 2 / remainder` split to bound directory fan-out, and the reverse
//! mapping concatenates the last three components.  Relative link targets
//! climb with `..` components; resolving a target against the link's
//! directory is explicit normalization.

use vstd::prelude::*;
use vstd::utf8::is_ascii_chars;
use crate::encode::{form_encode, lemma_form_encode_dots, lemma_form_encode_shape};
use crate::encode::is_unreserved_char;
use crate::ident::email_valid;

verus! {

/// The `..` path component.
pub open spec fn dotdot() -> Seq<char> {
    seq!['.', '.']
}

/// The `.` path component.
pub open spec fn dot() -> Seq<char> {
    seq!['.']
}

/// A component that names a directory entry: non-empty ASCII, no slash,
/// and neither `.` nor `..`.
pub open spec fn comp_normal(c: Seq<char>) -> bool {
    &&& c.len() > 0
    &&& is_ascii_chars(c)
    &&& forall|i: int| 0 <= i < c.len() ==> #[trigger] c[i] != '/'
    &&& c != dot()
    &&& c != dotdot()
}

/// A path whose components all name directory entries.
pub open spec fn path_normal(p: Seq<Seq<char>>) -> bool {
    forall|i: int| 0 <= i < p.len() ==> comp_normal(#[trigger] p[i])
}

/// The forward shard: strings of more than four characters split into
/// `2 / 2 / remainder`; shorter ones stay whole.
pub open spec fn split_spec(s: Seq<char>) -> Seq<Seq<char>> {
    if s.len() > 4 {
        seq![s.subrange(0, 2), s.subrange(2, 4), s.subrange(4, s.len() as int)]
    } else {
        seq![s]
    }
}

/// Concatenation of all components.
pub open spec fn concat_comps(p: Seq<Seq<char>>) -> Seq<char>
    decreases p.len(),
{
    if p.len() == 0 {
        Seq::empty()
    } else {
        p[0] + concat_comps(p.skip(1))
    }
}

/// The reverse mapping: the last three components (or all of them, if the
/// path is shorter), concatenated in order.
pub open spec fn merge_spec(p: Seq<Seq<char>>) -> Seq<char> {
    if p.len() <= 3 {
        concat_comps(p)
    } else {
        concat_comps(p.skip(p.len() - 3))
    }
}

/// The length of the longest common prefix of two paths.
pub open spec fn common_prefix_len(a: Seq<Seq<char>>, b: Seq<Seq<char>>) -> int
    decreases a.len(),
{
    if a.len() == 0 || b.len() == 0 || a[0] != b[0] {
        0
    } else {
        1 + common_prefix_len(a.skip(1), b.skip(1))
    }
}

/// A run of `n` `..` components.
pub open spec fn dots(n: int) -> Seq<Seq<char>>
    recommends
        n >= 0,
{
    Seq::new(n as nat, |i: int| dotdot())
}

/// The relative path from directory `base` to `path`: climb out of what is
/// not shared, then descend into `path`.
pub open spec fn diff_spec(path: Seq<Seq<char>>, base: Seq<Seq<char>>) -> Seq<Seq<char>> {
    let k = common_prefix_len(path, base);
    dots(base.len() - k) + path.skip(k)
}

/// One step of normalization: `..` drops the last component, `.` is
/// skipped, anything else is appended.
pub open spec fn norm_step(acc: Seq<Seq<char>>, c: Seq<char>) -> Seq<Seq<char>> {
    if c == dotdot() {
        if acc.len() > 0 {
            acc.drop_last()
        } else {
            acc
        }
    } else if c == dot() {
        acc
    } else {
        acc.push(c)
    }
}

/// Normalization of `rest`, left to right, on top of `acc`.
pub open spec fn normalize_from(acc: Seq<Seq<char>>, rest: Seq<Seq<char>>) -> Seq<Seq<char>>
    decreases rest.len(),
{
    if rest.len() == 0 {
        acc
    } else {
        normalize_from(norm_step(acc, rest[0]), rest.skip(1))
    }
}

/// Normalization of a whole path.
pub open spec fn normalize_spec(p: Seq<Seq<char>>) -> Seq<Seq<char>> {
    normalize_from(Seq::empty(), p)
}

/// A prefix of a path, component for component.
pub open spec fn is_path_prefix(pre: Seq<Seq<char>>, p: Seq<Seq<char>>) -> bool {
    pre.len() <= p.len() && pre == p.subrange(0, pre.len() as int)
}

/// A suffix of a path, component for component.
pub open spec fn is_path_suffix(suf: Seq<Seq<char>>, p: Seq<Seq<char>>) -> bool {
    suf.len() <= p.len() && suf == p.subrange(p.len() - suf.len(), p.len() as int)
}

/// A relative filesystem path: a sequence of components.
#[derive(Debug, Clone, PartialEq, Eq)]
pub struct FsPath {
    comps: Vec<String>,
}

impl View for FsPath {
    type V = Seq<Seq<char>>;

    closed spec fn view(&self) -> Seq<Seq<char>> {
        self.comps.deep_view()
    }
}

impl FsPath {
    /// The empty path.
    pub fn empty() -> (r: FsPath)
        ensures
            r@ == Seq::<Seq<char>>::empty(),
    {
        let r = FsPath { comps: Vec::new() };
        proof {
            assert(r@ =~= Seq::<Seq<char>>::empty());
        }
        r
    }

    /// A path built from the given components.
    pub fn from_parts(parts: Vec<String>) -> (r: FsPath)
        ensures
            r@ == parts.deep_view(),
    {
        FsPath { comps: parts }
    }

    /// The number of components.
    pub fn depth(&self) -> (r: usize)
        ensures
            r == self@.len(),
    {
        self.comps.len()
    }

    /// The component at `i`.
    pub fn comp_at(&self, i: usize) -> (r: &str)
        requires
            i < self@.len(),
        ensures
            r@ == self@[i as int],
    {
        self.comps[i].as_str()
    }

    /// An exact copy.
    pub fn duplicate(&self) -> (r: FsPath)
        ensures
            r@ == self@,
    {
        let mut r = FsPath::empty();
        let n = self.comps.len();
        let mut i: usize = 0;
        while i < n
            invariant
                i <= n,
                n == self@.len(),
                r@ == self@.subrange(0, i as int),
            decreases n - i,
        {
            r.push_comp(self.comps[i].clone());
            proof {
                assert(self@[i as int] == self.comps@[i as int].deep_view());
                assert(r@ =~= self@.subrange(0, i + 1));
            }
            i += 1;
        }
        proof {
            assert(self@.subrange(0, n as int) =~= self@);
        }
        r
    }

    /// Appends one component.
    pub fn push_comp(&mut self, s: String)
        ensures
            final(self)@ == old(self)@.push(s@),
    {
        let ghost oldcomps = self.comps@;
        self.comps.push(s);
        proof {
            let newv = self.comps.deep_view();
            assert forall|j: int| 0 <= j < newv.len() implies newv[j] == oldcomps.map_values(
                |c: String| c.deep_view(),
            ).push(s@)[j] by {
                assert(newv[j] == self.comps@[j].deep_view());
                if j < oldcomps.len() {
                    assert(self.comps@[j] == oldcomps[j]);
                }
            }
            assert(oldcomps.map_values(|c: String| c.deep_view()) =~= old(self)@) by {
                assert forall|j: int| 0 <= j < oldcomps.len() implies oldcomps.map_values(
                    |c: String| c.deep_view(),
                )[j] == old(self)@[j] by {
                    assert(old(self)@[j] == oldcomps[j].deep_view());
                }
            }
            assert(newv =~= old(self)@.push(s@));
        }
    }

    /// Drops the last component.
    pub fn pop_comp(&mut self)
        requires
            old(self)@.len() > 0,
        ensures
            final(self)@ == old(self)@.drop_last(),
    {
        let ghost oldcomps = self.comps@;
        self.comps.pop();
        proof {
            let newv = self.comps.deep_view();
            assert forall|j: int| 0 <= j < newv.len() implies newv[j] == old(self)@.drop_last()[j]
                by {
                assert(newv[j] == self.comps@[j].deep_view());
                assert(self.comps@[j] == oldcomps[j]);
                assert(old(self)@[j] == oldcomps[j].deep_view());
            }
            assert(newv =~= old(self)@.drop_last());
        }
    }

    /// This path extended by one more component.
    pub fn child(&self, name: &str) -> (r: FsPath)
        ensures
            r@ == self@.push(name@),
    {
        let mut r = self.duplicate();
        r.push_comp(name.to_owned());
        r
    }

    /// This path followed by all components of `other`.
    pub fn join(&self, other: &FsPath) -> (r: FsPath)
        ensures
            r@ == self@ + other@,
    {
        let mut r = self.duplicate();
        let n = other.comps.len();
        let mut i: usize = 0;
        while i < n
            invariant
                i <= n,
                n == other@.len(),
                r@ == self@ + other@.subrange(0, i as int),
            decreases n - i,
        {
            r.push_comp(other.comps[i].clone());
            proof {
                assert(other@[i as int] == other.comps@[i as int].deep_view());
                assert(r@ =~= self@ + other@.subrange(0, i + 1));
            }
            i += 1;
        }
        proof {
            assert(self@ + other@.subrange(0, n as int) =~= self@ + other@);
        }
        r
    }

    /// The path without its last component.
    pub fn parent(&self) -> (r: FsPath)
        requires
            self@.len() > 0,
        ensures
            r@ == self@.drop_last(),
    {
        let mut r = self.duplicate();
        r.pop_comp();
        r
    }

    /// Component-wise equality.
    pub fn equals(&self, other: &FsPath) -> (r: bool)
        ensures
            r == (self@ == other@),
    {
        let n = self.comps.len();
        if n != other.comps.len() {
            return false;
        }
        let mut i: usize = 0;
        while i < n
            invariant
                i <= n,
                n == self@.len() == other@.len(),
                forall|j: int| 0 <= j < i ==> self@[j] == other@[j],
            decreases n - i,
        {
            if !(self.comps[i] == other.comps[i]) {
                proof {
                    assert(self@[i as int] != other@[i as int]);
                }
                return false;
            }
            i += 1;
        }
        proof {
            assert(self@ =~= other@);
        }
        true
    }

    /// Whether `prefix` is a component-wise prefix of this path.
    pub fn starts_with(&self, prefix: &FsPath) -> (r: bool)
        ensures
            r == is_path_prefix(prefix@, self@),
    {
        let k = prefix.comps.len();
        if k > self.comps.len() {
            return false;
        }
        let mut i: usize = 0;
        while i < k
            invariant
                i <= k,
                k == prefix@.len(),
                k <= self@.len(),
                forall|j: int| 0 <= j < i ==> self@[j] == prefix@[j],
            decreases k - i,
        {
            if !(self.comps[i] == prefix.comps[i]) {
                proof {
                    assert(self@[i as int] != prefix@[i as int]);
                    if is_path_prefix(prefix@, self@) {
                        assert(self@.subrange(0, k as int)[i as int] == self@[i as int]);
                    }
                }
                return false;
            }
            i += 1;
        }
        proof {
            assert(prefix@ =~= self@.subrange(0, k as int));
        }
        true
    }

    /// Whether `suffix` is a component-wise suffix of this path.
    pub fn ends_with(&self, suffix: &FsPath) -> (r: bool)
        ensures
            r == is_path_suffix(suffix@, self@),
    {
        let k = suffix.comps.len();
        let n = self.comps.len();
        if k > n {
            return false;
        }
        let mut i: usize = 0;
        while i < k
            invariant
                i <= k,
                k == suffix@.len(),
                n == self@.len(),
                k <= n,
                forall|j: int| 0 <= j < i ==> self@[n - k + j] == suffix@[j],
            decreases k - i,
        {
            if !(self.comps[n - k + i] == suffix.comps[i]) {
                proof {
                    assert(self@[n - k + i] != suffix@[i as int]);
                    if is_path_suffix(suffix@, self@) {
                        assert(self@.subrange(n - k, n as int)[i as int] == self@[n - k + i]);
                    }
                }
                return false;
            }
            i += 1;
        }
        proof {
            assert(suffix@ =~= self@.subrange(n - k, n as int));
        }
        true
    }

    /// The path with `..` and `.` components resolved away.
    pub fn normalize(&self) -> (r: FsPath)
        ensures
            r@ == normalize_spec(self@),
    {
        let n = self.comps.len();
        let mut acc = FsPath::empty();
        let mut i: usize = 0;
        while i < n
            invariant
                i <= n,
                n == self@.len(),
                acc@ == normalize_from(Seq::empty(), self@.subrange(0, i as int)),
            decreases n - i,
        {
            let ghost done = self@.subrange(0, i as int);
            let c = &self.comps[i];
            proof {
                assert(self@[i as int] == self.comps@[i as int].deep_view());
            }
            if is_dotdot_comp(c.as_str()) {
                if acc.depth() > 0 {
                    acc.pop_comp();
                }
            } else if is_dot_comp(c.as_str()) {
            } else {
                acc.push_comp(c.clone());
            }
            proof {
                lemma_normalize_from_snoc(Seq::empty(), done, self@[i as int]);
                assert(self@.subrange(0, i + 1) =~= done.push(self@[i as int]));
                assert(acc@ == norm_step(normalize_from(Seq::empty(), done), self@[i as int]));
            }
            i += 1;
        }
        proof {
            assert(self@.subrange(0, n as int) =~= self@);
        }
        acc
    }
}

/// Whether a component is exactly `..`.
fn is_dotdot_comp(s: &str) -> (r: bool)
    ensures
        r == (s@ == dotdot()),
{
    let n = s.unicode_len();
    if n != 2 {
        return false;
    }
    let r = s.get_char(0) == '.' && s.get_char(1) == '.';
    proof {
        if r {
            assert(s@ =~= dotdot());
        }
    }
    r
}

/// Whether a component is exactly `.`.
fn is_dot_comp(s: &str) -> (r: bool)
    ensures
        r == (s@ == dot()),
{
    let n = s.unicode_len();
    if n != 1 {
        return false;
    }
    let r = s.get_char(0) == '.';
    proof {
        if r {
            assert(s@ =~= dot());
        }
    }
    r
}

/// The forward shard of an identifier string.
pub fn path_split(s: &str) -> (r: FsPath)
    requires
        s.is_ascii(),
    ensures
        r@ == split_spec(s@),
{
    let n = s.unicode_len();
    let mut r = FsPath::empty();
    if n > 4 {
        r.push_comp(s.substring_ascii(0, 2).to_owned());
        r.push_comp(s.substring_ascii(2, 4).to_owned());
        r.push_comp(s.substring_ascii(4, n).to_owned());
    } else {
        r.push_comp(s.to_owned());
    }
    proof {
        assert(r@ =~= split_spec(s@));
    }
    r
}

/// The reverse mapping of a path: its last three components, concatenated.
pub fn path_merge(p: &FsPath) -> (r: String)
    ensures
        r@ == merge_spec(p@),
{
    let n = p.comps.len();
    let start: usize = if n > 3 {
        n - 3
    } else {
        0
    };
    let mut out = String::new();
    let mut i: usize = start;
    while i < n
        invariant
            start <= i <= n,
            n == p@.len(),
            out@ == concat_comps(p@.subrange(start as int, i as int)),
        decreases n - i,
    {
        let ghost done = p@.subrange(start as int, i as int);
        out.append(p.comps[i].as_str());
        proof {
            assert(p@[i as int] == p.comps@[i as int].deep_view());
            lemma_concat_snoc(done, p@[i as int]);
            assert(p@.subrange(start as int, i + 1) =~= done.push(p@[i as int]));
        }
        i += 1;
    }
    proof {
        if n <= 3 {
            assert(p@.subrange(0, n as int) =~= p@);
        } else {
            assert(p@.subrange(start as int, n as int) =~= p@.skip(n - 3));
        }
    }
    out
}

/// Relies on `pathdiff::diff_paths`: for two relative paths of plain
/// components it strips the common prefix, climbs out of the rest of the
/// base with `..`, and descends into the rest of the path.
#[verifier::external_body]
pub fn diff_paths(path: &FsPath, base: &FsPath) -> (r: FsPath)
    requires
        path_normal(path@),
        path_normal(base@),
    ensures
        r@ == diff_spec(path@, base@),
{
    let mut pa = std::path::PathBuf::new();
    for c in path.comps.iter() {
        pa.push(c);
    }
    let mut pb = std::path::PathBuf::new();
    for c in base.comps.iter() {
        pb.push(c);
    }
    let d = pathdiff::diff_paths(&pa, &pb).expect("two relative paths always have a difference");
    let comps: Vec<String> = d.components().map(|c| c.as_os_str().to_string_lossy().into_owned()).collect();
    FsPath { comps }
}

/// Concatenating one more component concatenates its characters at the end.
proof fn lemma_concat_snoc(p: Seq<Seq<char>>, x: Seq<char>)
    ensures
        concat_comps(p.push(x)) == concat_comps(p) + x,
    decreases p.len(),
{
    if p.len() == 0 {
        assert(p.push(x).skip(1) =~= Seq::<Seq<char>>::empty());
        assert(concat_comps(p.push(x)) == x + concat_comps(Seq::empty()));
        assert(concat_comps(p.push(x)) =~= concat_comps(p) + x);
    } else {
        assert(p.push(x).skip(1) =~= p.skip(1).push(x));
        lemma_concat_snoc(p.skip(1), x);
        assert(concat_comps(p.push(x)) == p[0] + concat_comps(p.skip(1).push(x)));
        assert(concat_comps(p.push(x)) =~= concat_comps(p) + x);
    }
}

/// One normalization step distributes over a snoc.
proof fn lemma_normalize_from_snoc(acc: Seq<Seq<char>>, p: Seq<Seq<char>>, x: Seq<char>)
    ensures
        normalize_from(acc, p.push(x)) == norm_step(normalize_from(acc, p), x),
    decreases p.len(),
{
    if p.len() == 0 {
        assert(p.push(x).skip(1) =~= Seq::<Seq<char>>::empty());
        assert(p.push(x)[0] == x);
        assert(normalize_from(acc, p.push(x)) == normalize_from(norm_step(acc, x), p.push(x).skip(1)));
        assert(normalize_from(acc, p) == acc);
    } else {
        assert(p.push(x).skip(1) =~= p.skip(1).push(x));
        lemma_normalize_from_snoc(norm_step(acc, p[0]), p.skip(1), x);
        assert(p.push(x)[0] == p[0]);
        assert(normalize_from(acc, p.push(x)) == normalize_from(norm_step(acc, p[0]), p.skip(1).push(x)));
        assert(normalize_from(acc, p) == normalize_from(norm_step(acc, p[0]), p.skip(1)));
    }
}

/// Normalization appends plain components unchanged.
pub proof fn lemma_normalize_from_normal(acc: Seq<Seq<char>>, p: Seq<Seq<char>>)
    requires
        path_normal(p),
    ensures
        normalize_from(acc, p) == acc + p,
    decreases p.len(),
{
    if p.len() == 0 {
        assert(normalize_from(acc, p) =~= acc + p);
    } else {
        assert(comp_normal(p[0]));
        assert(norm_step(acc, p[0]) == acc.push(p[0]));
        assert(path_normal(p.skip(1))) by {
            assert forall|i: int| 0 <= i < p.skip(1).len() implies comp_normal(
                #[trigger] p.skip(1)[i],
            ) by {
                assert(p.skip(1)[i] == p[i + 1]);
            }
        }
        lemma_normalize_from_normal(acc.push(p[0]), p.skip(1));
        assert(acc.push(p[0]) + p.skip(1) =~= acc + p);
    }
}

/// Normalization pops one component for each leading `..`.
proof fn lemma_normalize_from_dots(acc: Seq<Seq<char>>, n: int, rest: Seq<Seq<char>>)
    requires
        0 <= n <= acc.len(),
    ensures
        normalize_from(acc, dots(n) + rest) == normalize_from(acc.take(acc.len() - n), rest),
    decreases n,
{
    if n == 0 {
        assert(dots(0) + rest =~= rest);
        assert(acc.take(acc.len() - 0) =~= acc);
    } else {
        let whole = dots(n) + rest;
        assert(whole[0] == dotdot());
        assert(whole.skip(1) =~= dots(n - 1) + rest);
        assert(acc.len() > 0);
        assert(norm_step(acc, dotdot()) == acc.drop_last());
        lemma_normalize_from_dots(acc.drop_last(), n - 1, rest);
        assert(acc.drop_last().take(acc.drop_last().len() - (n - 1)) =~= acc.take(acc.len() - n));
    }
}

/// Facts about the longest common prefix.
proof fn lemma_common_prefix(a: Seq<Seq<char>>, b: Seq<Seq<char>>)
    ensures
        0 <= common_prefix_len(a, b) <= a.len(),
        common_prefix_len(a, b) <= b.len(),
        forall|i: int| 0 <= i < common_prefix_len(a, b) ==> a[i] == b[i],
    decreases a.len(),
{
    if a.len() == 0 || b.len() == 0 || a[0] != b[0] {
    } else {
        lemma_common_prefix(a.skip(1), b.skip(1));
        let k = common_prefix_len(a, b);
        assert forall|i: int| 0 <= i < k implies a[i] == b[i] by {
            if i > 0 {
                assert(a.skip(1)[i - 1] == a[i]);
                assert(b.skip(1)[i - 1] == b[i]);
            }
        }
    }
}

/// Resolving the relative path from `base` to `path` against `base` gives
/// back `path`.
pub proof fn lemma_resolve_diff(path: Seq<Seq<char>>, base: Seq<Seq<char>>)
    requires
        path_normal(path),
        path_normal(base),
    ensures
        normalize_spec(base + diff_spec(path, base)) == path,
{
    let k = common_prefix_len(path, base);
    lemma_common_prefix(path, base);
    let d = diff_spec(path, base);
    lemma_normalize_concat(Seq::empty(), base, d);
    lemma_normalize_from_normal(Seq::empty(), base);
    assert(Seq::empty() + base =~= base);
    lemma_normalize_from_dots(base, base.len() - k, path.skip(k));
    assert(path_normal(path.skip(k))) by {
        assert forall|i: int| 0 <= i < path.skip(k).len() implies comp_normal(
            #[trigger] path.skip(k)[i],
        ) by {
            assert(path.skip(k)[i] == path[i + k]);
        }
    }
    lemma_normalize_from_normal(base.take(k), path.skip(k));
    assert(base.take(k) =~= path.take(k));
    assert(path.take(k) + path.skip(k) =~= path);
}

/// Normalization of a concatenation runs left to right.
proof fn lemma_normalize_concat(acc: Seq<Seq<char>>, p: Seq<Seq<char>>, q: Seq<Seq<char>>)
    ensures
        normalize_from(acc, p + q) == normalize_from(normalize_from(acc, p), q),
    decreases p.len(),
{
    if p.len() == 0 {
        assert(p + q =~= q);
    } else {
        assert((p + q)[0] == p[0]);
        assert((p + q).skip(1) =~= p.skip(1) + q);
        lemma_normalize_concat(norm_step(acc, p[0]), p.skip(1), q);
    }
}

/// The shard of a hex identifier is a normal path of three components for
/// strings longer than four characters, or one otherwise.
pub proof fn lemma_split_normal_hex(s: Seq<char>)
    requires
        s.len() > 0,
        forall|i: int| 0 <= i < s.len() ==> crate::ident::is_hex_char(#[trigger] s[i]),
    ensures
        path_normal(split_spec(s)),
    {
    crate::ident::lemma_hex_is_ascii(s);
    let p = split_spec(s);
    assert forall|i: int| 0 <= i < p.len() implies comp_normal(#[trigger] p[i]) by {
        let c = p[i];
        assert forall|j: int| 0 <= j < c.len() implies #[trigger] c[j] != '/' && c[j] != '.' && '\0'
            <= c[j] <= '\u{7f}' by {
            if s.len() > 4 {
                if i == 0 {
                    assert(c[j] == s[j]);
                } else if i == 1 {
                    assert(c[j] == s[j + 2]);
                } else {
                    assert(c[j] == s[j + 4]);
                }
            } else {
                assert(c[j] == s[j]);
            }
            assert(crate::ident::is_hex_char(c[j]));
        }
        assert(c.len() > 0);
        assert(c != dot()) by {
            assert(c[0] != '.');
        }
        assert(c != dotdot()) by {
            assert(c[0] != '.');
        }
    }
}

/// The shard of an encoded email address is a normal path of exactly three
/// components.
pub proof fn lemma_split_normal_encoded(s: Seq<char>)
    requires
        email_valid(s),
    ensures
        form_encode(s).len() > 4,
        path_normal(split_spec(form_encode(s))),
        split_spec(form_encode(s)).len() == 3,
{
    crate::ident::lemma_email_is_ascii(s);
    lemma_form_encode_shape(s);
    lemma_form_encode_dots(s);
    let e = form_encode(s);
    // The interior `@` is escaped, so the encoding grows by at least two.
    let at = choose|i: int| 0 < i < s.len() - 1 && s[i] == '@';
    assert(!is_unreserved_char(s[at]) && s[at] != ' ');
    assert(e.len() >= s.len() + 2);
    assert(e.len() > 4);
    // Character facts carried over from the shape lemma.
    assert forall|j: int| 0 <= j < e.len() implies #[trigger] e[j] != '/' && '\0' <= e[j]
        <= '\u{7f}' by {
        assert(is_unreserved_char(e[j]) || e[j] == '+' || e[j] == '%');
    }
    let p = split_spec(e);
    assert forall|i: int| 0 <= i < p.len() implies comp_normal(#[trigger] p[i]) by {
        let c = p[i];
        assert forall|j: int| 0 <= j < c.len() implies #[trigger] c[j] != '/' && '\0' <= c[j]
            <= '\u{7f}' by {
            if i == 0 {
                assert(c[j] == e[j]);
            } else if i == 1 {
                assert(c[j] == e[j + 2]);
            } else {
                assert(c[j] == e[j + 4]);
            }
        }
        assert(c.len() > 0);
        if i == 0 {
            assert(c[0] == e[0]);
            assert(e[0] != '.');
            assert(c != dot() && c != dotdot()) by {
                assert(c[0] != '.');
            }
        } else if i == 1 {
            assert(c =~= seq![e[2], e[3]]);
            assert(c != dot()) by {
                assert(c.len() == 2);
            }
            assert(c != dotdot()) by {
                if c == dotdot() {
                    assert(e[2] == '.' && e[3] == '.');
                }
            }
        } else {
            assert(i == 2);
            assert(c == e.subrange(4, e.len() as int));
            assert(c != dot()) by {
                if c == dot() {
                    assert(c.len() == 1);
                    assert(e.len() == 5);
                    assert(c[0] == e[4]);
                    assert(e[e.len() - 1] == '.');
                }
            }
            assert(c != dotdot()) by {
                if c == dotdot() {
                    assert(c.len() == 2);
                    assert(c[0] == e[4] && c[1] == e[5]);
                    assert(e[4] == '.' && e[5] == '.');
                }
            }
        }
    }
}

/// Merging a path that ends in the shard of `s` gives back `s`.
pub proof fn lemma_merge_split(base: Seq<Seq<char>>, s: Seq<char>)
    requires
        s.len() > 4,
    ensures
        merge_spec(base + split_spec(s)) == s,
{
    let p = base + split_spec(s);
    let q = split_spec(s);
    assert(p.len() == base.len() + 3);
    let tail = if p.len() <= 3 {
        p
    } else {
        p.skip(p.len() - 3)
    };
    assert(tail =~= q);
    assert(merge_spec(p) == concat_comps(q));
    let c1 = s.subrange(0, 2);
    let c2 = s.subrange(2, 4);
    let c3 = s.subrange(4, s.len() as int);
    assert(seq![c3].skip(1) =~= Seq::<Seq<char>>::empty());
    assert(concat_comps(Seq::<Seq<char>>::empty()) == Seq::<char>::empty());
    assert(concat_comps(seq![c3]) == c3 + concat_comps(Seq::<Seq<char>>::empty()));
    assert(concat_comps(seq![c3]) =~= c3);
    assert(seq![c2, c3].skip(1) =~= seq![c3]);
    assert(concat_comps(seq![c2, c3]) =~= c2 + c3);
    assert(q.skip(1) =~= seq![c2, c3]);
    assert(concat_comps(q) == c1 + concat_comps(seq![c2, c3]));
    assert(concat_comps(q) =~= s);
}

/// Two extensions of the same root agree only on the same tail.
pub proof fn lemma_append_cancel(r: Seq<Seq<char>>, x: Seq<Seq<char>>, y: Seq<Seq<char>>)
    requires
        r + x == r + y,
    ensures
        x == y,
{
    assert((r + x).len() == r.len() + x.len());
    assert((r + y).len() == r.len() + y.len());
    assert(x.len() == y.len());
    assert forall|i: int| 0 <= i < x.len() implies x[i] == y[i] by {
        assert((r + x)[r.len() + i] == x[i]);
        assert((r + y)[r.len() + i] == y[i]);
    }
    assert(x =~= y);
}

/// Two prefixes of one path are ordered by the prefix relation.
pub proof fn lemma_prefix_total(a: Seq<Seq<char>>, b: Seq<Seq<char>>, p: Seq<Seq<char>>)
    requires
        is_path_prefix(a, p),
        is_path_prefix(b, p),
    ensures
        a.len() <= b.len() ==> is_path_prefix(a, b),
{
    if a.len() <= b.len() {
        assert forall|i: int| 0 <= i < a.len() implies a[i] == b[i] by {
            assert(p.subrange(0, a.len() as int)[i] == p[i]);
            assert(p.subrange(0, b.len() as int)[i] == p[i]);
        }
        assert(a =~= b.subrange(0, a.len() as int));
    }
}

/// Neither of two roots reaches into the other's subtree.
pub open spec fn roots_disjoint(a: Seq<Seq<char>>, b: Seq<Seq<char>>) -> bool {
    !is_path_prefix(a, b) && !is_path_prefix(b, a)
}

/// Paths under disjoint roots are distinct.
pub proof fn lemma_disjoint_roots_distinct(
    r1: Seq<Seq<char>>,
    r2: Seq<Seq<char>>,
    x: Seq<Seq<char>>,
    y: Seq<Seq<char>>,
)
    requires
        roots_disjoint(r1, r2),
    ensures
        r1 + x != r2 + y,
{
    if r1 + x == r2 + y {
        let p = r1 + x;
        assert(is_path_prefix(r1, p)) by {
            assert(r1 =~= p.subrange(0, r1.len() as int));
        }
        assert(is_path_prefix(r2, p)) by {
            assert forall|i: int| 0 <= i < r2.len() implies r2[i] == p[i] by {
                assert((r2 + y)[i] == r2[i]);
            }
            assert(r2 =~= p.subrange(0, r2.len() as int));
        }
        if r1.len() <= r2.len() {
            lemma_prefix_total(r1, r2, p);
        } else {
            lemma_prefix_total(r2, r1, p);
        }
    }
}

/// Extending two bases that are equal with tails that differ somewhere, or
/// that are mutually non-nested, gives disjoint roots.
pub proof fn lemma_extend_disjoint(
    a: Seq<Seq<char>>,
    s1: Seq<Seq<char>>,
    b: Seq<Seq<char>>,
    s2: Seq<Seq<char>>,
)
    requires
        a == b ==> exists|k: int| 0 <= k < s1.len() && k < s2.len() && s1[k] != s2[k],
        a != b ==> roots_disjoint(a, b),
    ensures
        roots_disjoint(a + s1, b + s2),
{
    if is_path_prefix(a + s1, b + s2) {
        let p = b + s2;
        assert forall|i: int| 0 <= i < a.len() + s1.len() implies (a + s1)[i] == p[i] by {
            assert(p.subrange(0, (a + s1).len() as int)[i] == p[i]);
        }
        if a == b {
            let k = choose|k: int| 0 <= k < s1.len() && k < s2.len() && s1[k] != s2[k];
            assert((a + s1)[a.len() + k] == s1[k]);
            assert((b + s2)[a.len() + k] == s2[k]);
        } else {
            assert(is_path_prefix(a, p)) by {
                assert forall|i: int| 0 <= i < a.len() implies a[i] == p[i] by {
                    assert((a + s1)[i] == a[i]);
                }
                assert(a =~= p.subrange(0, a.len() as int));
            }
            assert(is_path_prefix(b, p)) by {
                assert(b =~= p.subrange(0, b.len() as int));
            }
            if a.len() <= b.len() {
                lemma_prefix_total(a, b, p);
            } else {
                lemma_prefix_total(b, a, p);
            }
        }
    }
    if is_path_prefix(b + s2, a + s1) {
        let p = a + s1;
        assert forall|i: int| 0 <= i < b.len() + s2.len() implies (b + s2)[i] == p[i] by {
            assert(p.subrange(0, (b + s2).len() as int)[i] == p[i]);
        }
        if a == b {
            let k = choose|k: int| 0 <= k < s1.len() && k < s2.len() && s1[k] != s2[k];
            assert((b + s2)[b.len() + k] == s2[k]);
            assert((a + s1)[b.len() + k] == s1[k]);
        } else {
            assert(is_path_prefix(b, p)) by {
                assert forall|i: int| 0 <= i < b.len() implies b[i] == p[i] by {
                    assert((b + s2)[i] == b[i]);
                }
                assert(b =~= p.subrange(0, b.len() as int));
            }
            assert(is_path_prefix(a, p)) by {
                assert(a =~= p.subrange(0, a.len() as int));
            }
            if a.len() <= b.len() {
                lemma_prefix_total(a, b, p);
            } else {
                lemma_prefix_total(b, a, p);
            }
        }
    }
}

/// Concatenation keeps paths normal.
pub proof fn lemma_concat_normal(a: Seq<Seq<char>>, b: Seq<Seq<char>>)
    requires
        path_normal(a),
        path_normal(b),
    ensures
        path_normal(a + b),
{
    assert forall|i: int| 0 <= i < (a + b).len() implies comp_normal(#[trigger] (a + b)[i]) by {
        if i < a.len() {
            assert((a + b)[i] == a[i]);
        } else {
            assert((a + b)[i] == b[i - a.len()]);
        }
    }
}

/// Dropping the last component keeps a path normal.
pub proof fn lemma_drop_last_normal(p: Seq<Seq<char>>)
    requires
        path_normal(p),
        p.len() > 0,
    ensures
        path_normal(p.drop_last()),
{
    assert forall|i: int| 0 <= i < p.drop_last().len() implies comp_normal(
        #[trigger] p.drop_last()[i],
    ) by {
        assert(p.drop_last()[i] == p[i]);
    }
}

/// A root is a prefix of everything under it.
pub proof fn lemma_prefix_extend(a: Seq<Seq<char>>, x: Seq<Seq<char>>)
    ensures
        is_path_prefix(a, a + x),
{
    assert(a =~= (a + x).subrange(0, a.len() as int));
}

/// Splitting a common base out of a prefix comparison.
pub proof fn lemma_common_prefix_extend(a: Seq<Seq<char>>, x: Seq<Seq<char>>, y: Seq<Seq<char>>)
    ensures
        common_prefix_len(a + x, a + y) == a.len() + common_prefix_len(x, y),
    decreases a.len(),
{
    if a.len() == 0 {
        assert(a + x =~= x);
        assert(a + y =~= y);
    } else {
        assert((a + x)[0] == a[0]);
        assert((a + y)[0] == a[0]);
        assert((a + x).len() > 0 && (a + y).len() > 0);
        lemma_common_prefix_extend(a.skip(1), x, y);
        assert((a + x).skip(1) =~= a.skip(1) + x);
        assert((a + y).skip(1) =~= a.skip(1) + y);
    }
}

/// Resolving the relative path from `base` to `path` against another
/// directory of the same depth that shares the same leading components
/// still gives back `path`.
pub proof fn lemma_resolve_diff_other(
    path: Seq<Seq<char>>,
    base: Seq<Seq<char>>,
    home: Seq<Seq<char>>,
)
    requires
        path_normal(path),
        path_normal(base),
        path_normal(home),
        base.len() == home.len(),
        home.take(common_prefix_len(path, base)) == path.take(common_prefix_len(path, base)),
    ensures
        normalize_spec(home + diff_spec(path, base)) == path,
{
    let k = common_prefix_len(path, base);
    lemma_common_prefix(path, base);
    let d = diff_spec(path, base);
    lemma_normalize_concat(Seq::empty(), home, d);
    lemma_normalize_from_normal(Seq::empty(), home);
    assert(Seq::empty() + home =~= home);
    lemma_normalize_from_dots(home, home.len() - k, path.skip(k));
    assert(path_normal(path.skip(k))) by {
        assert forall|i: int| 0 <= i < path.skip(k).len() implies comp_normal(
            #[trigger] path.skip(k)[i],
        ) by {
            assert(path.skip(k)[i] == path[i + k]);
        }
    }
    assert(dots(base.len() - k) =~= dots(home.len() - k));
    lemma_normalize_from_normal(home.take(k), path.skip(k));
    assert(path.take(k) + path.skip(k) =~= path);
}

} // verus!
