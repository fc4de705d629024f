//! Paths as Linux has them: bytes, with `/` between the names.

use vstd::prelude::*;
use vstd::utf8::{encode_utf8, is_ascii_chars, is_ascii_chars_encode_utf8};

use crate::text::{lemma_split_concat, lemma_split_some, lossy, split, utf8_text};

verus! {

/// A path. Two paths that differ in doubled or trailing slashes, or in `.` in the middle, name the
/// same place: [`FilePath::same_as`] compares places, not bytes.
#[derive(Debug, PartialEq, Eq)]
pub struct FilePath {
    pub bytes: Vec<u8>,
}

/// One step of a path.
#[derive(Debug, PartialEq, Eq)]
pub enum Part {
    Root,
    Current,
    Up,
    Name(Vec<u8>),
}

pub enum PartView {
    Root,
    Current,
    Up,
    Name(Seq<u8>),
}

impl View for FilePath {
    type V = Seq<u8>;

    open spec fn view(&self) -> Seq<u8> {
        self.bytes@
    }
}

impl View for Part {
    type V = PartView;

    open spec fn view(&self) -> PartView {
        match self {
            Part::Root => PartView::Root,
            Part::Current => PartView::Current,
            Part::Up => PartView::Up,
            Part::Name(name) => PartView::Name(name@),
        }
    }
}

pub open spec fn parts_view(list: Seq<Part>) -> Seq<PartView> {
    Seq::new(list.len(), |i: int| list[i]@)
}

/// What each path of a list is.
pub open spec fn paths_view(list: Seq<FilePath>) -> Seq<Seq<u8>> {
    Seq::new(list.len(), |i: int| list[i]@)
}

pub proof fn lemma_paths_push(list: Seq<FilePath>, last: FilePath)
    ensures
        paths_view(list.push(last)) == paths_view(list).push(last@),
{
    assert(paths_view(list.push(last)) =~= paths_view(list).push(last@));
}

pub open spec fn absolute(path: Seq<u8>) -> bool {
    path.len() > 0 && path[0] == 47
}

pub open spec fn dot(piece: Seq<u8>) -> bool {
    piece.len() == 1 && piece[0] == 46
}

pub open spec fn dot_dot(piece: Seq<u8>) -> bool {
    piece.len() == 2 && piece[0] == 46 && piece[1] == 46
}

/// The step that a piece between slashes stands for, if it stands for one: an empty piece does not,
/// nor does `.` except in front.
pub open spec fn part_of(piece: Seq<u8>, front: bool) -> Seq<PartView> {
    if piece.len() == 0 {
        Seq::empty()
    } else if dot(piece) {
        if front {
            seq![PartView::Current]
        } else {
            Seq::empty()
        }
    } else if dot_dot(piece) {
        seq![PartView::Up]
    } else {
        seq![PartView::Name(piece)]
    }
}

pub open spec fn parts_of(pieces: Seq<Seq<u8>>) -> Seq<PartView>
    decreases pieces.len(),
{
    if pieces.len() == 0 {
        Seq::empty()
    } else {
        parts_of(pieces.drop_last()) + part_of(pieces.last(), pieces.len() == 1)
    }
}

/// The steps of a path.
pub open spec fn parts(path: Seq<u8>) -> Seq<PartView> {
    if absolute(path) {
        seq![PartView::Root] + parts_of(split(path, 47))
    } else {
        parts_of(split(path, 47))
    }
}

/// The name a path ends in.
pub open spec fn last_name(path: Seq<u8>) -> Option<Seq<u8>> {
    let all = parts(path);
    if all.len() > 0 {
        match all.last() {
            PartView::Name(name) => Some(name),
            _ => None,
        }
    } else {
        None
    }
}

/// A path inside another: an absolute one replaces it.
pub open spec fn under(base: Seq<u8>, inner: Seq<u8>) -> Seq<u8> {
    if absolute(inner) {
        inner
    } else if base.len() == 0 || base.last() == 47 {
        base + inner
    } else {
        base.push(47) + inner
    }
}

/// A name or relative path, given as text, inside a path.
pub open spec fn under_text(base: Seq<u8>, inner: Seq<char>) -> Seq<u8> {
    under(base, encode_utf8(inner))
}

/// Where the part of a path behind its root, or behind a `.` in front, starts.
pub open spec fn body(path: Seq<u8>) -> int {
    if absolute(path) {
        1
    } else if path.len() > 0 && path[0] == 46 && (path.len() == 1 || path[1] == 47) {
        1
    } else {
        0
    }
}

/// The first `end` bytes of a path, without slashes and `.` steps behind.
pub open spec fn cut_back(path: Seq<u8>, end: int) -> int
    decreases end,
{
    if end <= body(path) {
        end
    } else if path[end - 1] == 47 {
        cut_back(path, end - 1)
    } else if path[end - 1] == 46 && (end - 1 == body(path) || path[end - 2] == 47) {
        cut_back(path, end - 1)
    } else {
        end
    }
}

/// Where the piece that ends at `end` starts.
pub open spec fn piece_start(path: Seq<u8>, end: int) -> int
    decreases end,
{
    if end <= body(path) || path[end - 1] == 47 {
        end
    } else {
        piece_start(path, end - 1)
    }
}

/// The path without its last step; nothing for a root and for an empty path.
pub open spec fn parent_of(path: Seq<u8>) -> Option<Seq<u8>> {
    let end = cut_back(path, path.len() as int);
    if end > body(path) {
        Some(path.take(cut_back(path, piece_start(path, end))))
    } else if absolute(path) || path.len() == 0 {
        None
    } else {
        Some(Seq::empty())
    }
}

/// A path in words, as messages show it.
pub open spec fn shown(path: Seq<u8>) -> Seq<char> {
    utf8_text(path)
}

fn copy_of(bytes: &[u8]) -> (copy: Vec<u8>)
    ensures
        copy@ == bytes@,
{
    vstd::slice::slice_to_vec(bytes)
}

pub fn same_bytes(left: &[u8], right: &[u8]) -> (equal: bool)
    ensures
        equal == (left@ == right@),
{
    if left.len() != right.len() {
        return false;
    }
    let mut i: usize = 0;
    while i < left.len()
        invariant
            i <= left.len(),
            left.len() == right.len(),
            forall|k: int| 0 <= k < i ==> left@[k] == right@[k],
        decreases left.len() - i,
    {
        if left[i] != right[i] {
            return false;
        }
        i = i + 1;
    }
    assert(left@ =~= right@);
    true
}

impl Part {
    pub fn same_as(&self, other: &Part) -> (equal: bool)
        ensures
            equal == (self@ == other@),
    {
        match (self, other) {
            (Part::Root, Part::Root) => true,
            (Part::Current, Part::Current) => true,
            (Part::Up, Part::Up) => true,
            (Part::Name(a), Part::Name(b)) => same_bytes(a.as_slice(), b.as_slice()),
            _ => false,
        }
    }

    pub fn copy(&self) -> (copy: Part)
        ensures
            copy@ == self@,
    {
        match self {
            Part::Root => Part::Root,
            Part::Current => Part::Current,
            Part::Up => Part::Up,
            Part::Name(name) => Part::Name(copy_of(name.as_slice())),
        }
    }
}

impl FilePath {
    /// The path that a text names.
    pub fn new(text: &str) -> (path: FilePath)
        ensures
            path@ == encode_utf8(text@),
    {
        FilePath { bytes: copy_of(text.as_bytes()) }
    }

    pub fn from_bytes(bytes: &[u8]) -> (path: FilePath)
        ensures
            path@ == bytes@,
    {
        FilePath { bytes: copy_of(bytes) }
    }

    pub fn copy(&self) -> (path: FilePath)
        ensures
            path@ == self@,
    {
        FilePath { bytes: copy_of(self.bytes.as_slice()) }
    }

    /// The path in words.
    pub fn display(&self) -> (text: String)
        ensures
            text@ == shown(self@),
    {
        lossy(self.bytes.as_slice())
    }

    pub fn is_absolute(&self) -> (is: bool)
        ensures
            is == absolute(self@),
    {
        self.bytes.len() > 0 && self.bytes[0] == 47
    }

    /// The steps of the path.
    pub fn parts(&self) -> (list: Vec<Part>)
        ensures
            parts_view(list@) == parts(self@),
    {
        let ghost path = self@;
        let root = self.is_absolute();
        let mut list: Vec<Part> = Vec::new();
        if root {
            list.push(Part::Root);
        }
        let ghost front = parts_view(list@);
        assert(front =~= if root {
            seq![PartView::Root]
        } else {
            Seq::empty()
        });
        let mut piece: Vec<u8> = Vec::new();
        let mut first = true;
        let ghost mut pieces: Seq<Seq<u8>> = Seq::empty();
        let mut i: usize = 0;
        assert(pieces.push(piece@) =~= split(path.take(0), 47)) by {
            assert(piece@ =~= Seq::<u8>::empty());
        }
        assert(parts_view(list@) =~= front + parts_of(pieces));
        while i < self.bytes.len()
            invariant
                i <= self.bytes.len(),
                path == self@,
                pieces.push(piece@) == split(path.take(i as int), 47),
                parts_view(list@) == front + parts_of(pieces),
                first == (pieces.len() == 0),
            decreases self.bytes.len() - i,
        {
            let ghost all = pieces.push(piece@);
            assert(path.take(i + 1).drop_last() =~= path.take(i as int));
            assert(all.drop_last() =~= pieces);
            if self.bytes[i] == 47 {
                push_part(&mut list, piece, first);
                proof {
                    pieces = all;
                    assert(parts_view(list@) =~= front + parts_of(pieces));
                }
                piece = Vec::new();
                assert(piece@ =~= Seq::<u8>::empty());
                first = false;
            } else {
                piece.push(self.bytes[i]);
            }
            i = i + 1;
        }
        let ghost all = pieces.push(piece@);
        assert(all.drop_last() =~= pieces);
        assert(path.take(i as int) =~= path);
        push_part(&mut list, piece, first);
        assert(parts_view(list@) =~= front + parts_of(all));
        assert(!root ==> front + parts_of(all) =~= parts_of(all));
        list
    }

    /// Do the two paths name the same place, as far as their steps tell?
    pub fn same_as(&self, other: &FilePath) -> (equal: bool)
        ensures
            equal == (parts(self@) == parts(other@)),
    {
        let a = self.parts();
        let b = other.parts();
        if a.len() != b.len() {
            return false;
        }
        let same = starts_with_parts(&a, &b);
        assert(parts_view(a@).subrange(0, b.len() as int) =~= parts_view(a@));
        same
    }

    /// Is `base` this path or one of the directories it goes through?
    pub fn starts_with(&self, base: &FilePath) -> (does: bool)
        ensures
            does == parts(base@).is_prefix_of(parts(self@)),
    {
        starts_with_parts(&self.parts(), &base.parts())
    }

    pub fn file_name(&self) -> (name: Option<Vec<u8>>)
        ensures
            name is Some <==> last_name(self@) is Some,
            name matches Some(name) ==> Some(name@) == last_name(self@),
    {
        let list = self.parts();
        if list.len() == 0 {
            return None;
        }
        assert(parts_view(list@).last() == list@[list.len() - 1]@);
        match &list[list.len() - 1] {
            Part::Name(name) => Some(copy_of(name.as_slice())),
            _ => None,
        }
    }

    /// The name the path ends in, in words.
    pub fn file_name_text(&self) -> (name: Option<String>)
        ensures
            name is Some <==> last_name(self@) is Some,
            name matches Some(name) ==> name@ == utf8_text(last_name(self@)->0),
    {
        match self.file_name() {
            Some(name) => Some(lossy(name.as_slice())),
            None => None,
        }
    }

    pub fn join(&self, inner: &FilePath) -> (path: FilePath)
        ensures
            path@ == under(self@, inner@),
    {
        if inner.is_absolute() {
            return inner.copy();
        }
        let mut bytes = copy_of(self.bytes.as_slice());
        if bytes.len() > 0 && bytes[bytes.len() - 1] != 47 {
            bytes.push(47);
        }
        let mut rest = copy_of(inner.bytes.as_slice());
        bytes.append(&mut rest);
        FilePath { bytes }
    }

    pub fn join_text(&self, inner: &str) -> (path: FilePath)
        ensures
            path@ == under_text(self@, inner@),
    {
        self.join(&FilePath::new(inner))
    }

    fn body_start(&self) -> (start: usize)
        ensures
            start == body(self@),
            start <= self@.len(),
    {
        let n: usize = self.bytes.len();
        if n > 0 && (self.bytes[0] == 47 || (self.bytes[0] == 46 && (n == 1 || self.bytes[1] == 47))) {
            1
        } else {
            0
        }
    }

    fn cut(&self, from: usize) -> (end: usize)
        requires
            body(self@) <= from <= self@.len(),
        ensures
            end == cut_back(self@, from as int),
            body(self@) <= end <= from,
    {
        let start = self.body_start();
        let mut end: usize = from;
        while end > start && (self.bytes[end - 1] == 47 || (self.bytes[end - 1] == 46 && (end - 1
            == start || self.bytes[end - 2] == 47)))
            invariant
                start == body(self@),
                start <= end <= from,
                from <= self@.len(),
                cut_back(self@, end as int) == cut_back(self@, from as int),
            decreases end,
        {
            end = end - 1;
        }
        end
    }

    pub fn parent(&self) -> (path: Option<FilePath>)
        ensures
            path is Some <==> parent_of(self@) is Some,
            path matches Some(path) ==> Some(path@) == parent_of(self@),
    {
        let start = self.body_start();
        let end = self.cut(self.bytes.len());
        if end > start {
            let mut piece: usize = end;
            while piece > start && self.bytes[piece - 1] != 47
                invariant
                    start == body(self@),
                    start <= piece <= end <= self@.len(),
                    piece_start(self@, piece as int) == piece_start(self@, end as int),
                decreases piece,
            {
                piece = piece - 1;
            }
            let keep = self.cut(piece);
            assert(self@.subrange(0, keep as int) =~= self@.take(keep as int));
            Some(FilePath::from_bytes(vstd::slice::slice_subrange(self.bytes.as_slice(), 0, keep)))
        } else if self.is_absolute() || self.bytes.len() == 0 {
            None
        } else {
            let none: Vec<u8> = Vec::new();
            assert(none@ =~= Seq::<u8>::empty());
            Some(FilePath { bytes: none })
        }
    }
}

proof fn lemma_parts_of_concat(a: Seq<Seq<u8>>, b: Seq<Seq<u8>>)
    requires
        a.len() > 0,
        b.len() > 0,
        !dot(b[0]),
    ensures
        parts_of(a + b) == parts_of(a) + parts_of(b),
    decreases b.len(),
{
    assert((a + b).drop_last() =~= a + b.drop_last());
    if b.len() == 1 {
        assert(a + b.drop_last() =~= a);
        assert(parts_of(b.drop_last()) =~= Seq::empty());
        assert(parts_of(b) =~= part_of(b[0], true));
        assert(part_of(b[0], true) == part_of(b[0], false));
        assert(parts_of(a + b) =~= parts_of(a) + parts_of(b));
    } else {
        lemma_parts_of_concat(a, b.drop_last());
        assert(parts_of(a + b) =~= parts_of(a) + parts_of(b));
    }
}

/// The steps of a path inside another are those of the outer one and then those of the inner one.
/// A `.` in front of the inner path is no step there.
pub proof fn law_join_adds_steps(base: Seq<u8>, inner: Seq<u8>)
    requires
        !absolute(inner),
        !dot(split(inner, 47)[0]),
    ensures
        parts(under(base, inner)) == parts(base) + parts(inner),
{
    lemma_split_some(inner, 47);
    if base.len() == 0 {
        assert(under(base, inner) =~= inner);
        assert(split(base, 47) =~= seq![Seq::<u8>::empty()]);
        assert(parts_of(Seq::<Seq<u8>>::empty()) =~= Seq::empty());
        assert(split(base, 47).drop_last() =~= Seq::empty());
        assert(parts(base) =~= Seq::empty());
        assert(parts(base) + parts(inner) =~= parts(inner));
    } else {
        let ended = if base.last() == 47 {
            base
        } else {
            base.push(47)
        };
        assert(ended.last() == 47);
        let front = split(ended.drop_last(), 47);
        lemma_split_some(ended.drop_last(), 47);
        assert(split(ended, 47) =~= front.push(Seq::empty()));
        lemma_split_concat(ended, inner, 47);
        let si = split(inner, 47);
        assert(Seq::<u8>::empty() + si[0] =~= si[0]);
        assert(split(ended + inner, 47) =~= front + si);
        lemma_parts_of_concat(front, si);
        assert(front.push(Seq::empty()).drop_last() =~= front);
        assert(parts_of(split(ended, 47)) =~= parts_of(front));
        if base.last() != 47 {
            assert(ended.drop_last() =~= base);
        } else {
            assert(ended == base);
        }
        assert(parts_of(split(base, 47)) == parts_of(front));
        assert(absolute(ended + inner) == absolute(base));
        assert(under(base, inner) == ended + inner);
        assert(parts(under(base, inner)) =~= parts(base) + parts(inner));
    }
}

proof fn lemma_take_slash(path: Seq<u8>, end: int)
    requires
        body(path) < end <= path.len(),
        path[end - 1] == 47,
    ensures
        parts(path.take(end)) == parts(path.take(end - 1)),
{
    let long = path.take(end);
    let short = path.take(end - 1);
    assert(long.drop_last() =~= short);
    assert(split(long, 47) == split(short, 47).push(Seq::empty()));
    assert(split(long, 47).drop_last() =~= split(short, 47));
    assert(parts_of(split(long, 47)) =~= parts_of(split(short, 47)));
    assert(end - 1 >= 1);
}

proof fn lemma_take_piece(path: Seq<u8>, start: int, end: int)
    requires
        0 <= start < end <= path.len(),
        start == 0 || path[start - 1] == 47,
        forall|k: int| start <= k < end ==> path[k] != 47,
    ensures
        split(path.take(end), 47) == split(path.take(start), 47).drop_last().push(
            path.subrange(start, end),
        ),
    decreases end - start,
{
    let long = path.take(end);
    let short = path.take(end - 1);
    assert(long.drop_last() =~= short);
    lemma_split_some(path.take(start), 47);
    if end - 1 == start {
        if start > 0 {
            assert(short.last() == 47);
            assert(split(short, 47).last() =~= Seq::<u8>::empty());
        } else {
            assert(split(short, 47).last() =~= Seq::<u8>::empty());
        }
        assert(Seq::<u8>::empty().push(path[start]) =~= path.subrange(start, end));
    } else {
        lemma_take_piece(path, start, end - 1);
        let before = split(path.take(start), 47).drop_last();
        assert(before.push(path.subrange(start, end - 1)).drop_last() =~= before);
        assert(path.subrange(start, end - 1).push(path[end - 1]) =~= path.subrange(start, end));
    }
}

proof fn lemma_take_dot(path: Seq<u8>, end: int)
    requires
        body(path) < end <= path.len(),
        path[end - 1] == 46,
        end - 1 == body(path) || path[end - 2] == 47,
        end == path.len() || path[end] == 47,
    ensures
        parts(path.take(end)) == parts(path.take(end - 1)),
{
    let start = end - 1;
    lemma_take_piece(path, start, end);
    let short = split(path.take(start), 47);
    lemma_split_some(path.take(start), 47);
    assert(start > 0);
    assert(path.take(start).last() == 47);
    assert(short.last() =~= Seq::<u8>::empty());
    assert(short == split(path.take(start).drop_last(), 47).push(Seq::empty()));
    lemma_split_some(path.take(start).drop_last(), 47);
    let long = split(path.take(end), 47);
    assert(long.drop_last() =~= short.drop_last());
    assert(parts_of(long) =~= parts_of(long.drop_last()));
    assert(parts_of(short) =~= parts_of(short.drop_last()));
}

proof fn lemma_cut_back(path: Seq<u8>, end: int)
    requires
        body(path) <= end <= path.len(),
        end == path.len() || path[end] == 47 || end == body(path) || path[end - 1] == 47,
    ensures
        body(path) <= cut_back(path, end) <= end,
        body(path) == 0 && end > 0 ==> cut_back(path, end) > 0,
        parts(path.take(cut_back(path, end))) == parts(path.take(end)),
        ({
            let cut = cut_back(path, end);
            &&& cut == path.len() || path[cut] == 47 || cut == body(path)
            &&& cut > body(path) ==> path[cut - 1] != 47 && !(path[cut - 1] == 46 && (cut - 1 == body(
                path,
            ) || path[cut - 2] == 47))
        }),
    decreases end,
{
    if end > body(path) {
        if path[end - 1] == 47 {
            lemma_take_slash(path, end);
            lemma_cut_back(path, end - 1);
        } else if path[end - 1] == 46 && (end - 1 == body(path) || path[end - 2] == 47) {
            lemma_take_dot(path, end);
            lemma_cut_back(path, end - 1);
        }
    }
}

proof fn lemma_piece_start(path: Seq<u8>, end: int)
    requires
        body(path) <= end <= path.len(),
    ensures
        body(path) <= piece_start(path, end) <= end,
        piece_start(path, end) == body(path) || path[piece_start(path, end) - 1] == 47,
        forall|k: int| piece_start(path, end) <= k < end ==> path[k] != 47,
    decreases end,
{
    if end > body(path) && path[end - 1] != 47 {
        lemma_piece_start(path, end - 1);
    }
}

/// The parent of a path has all its steps but the last, and only a path without a step other than
/// the root has none.
pub proof fn law_parent_drops_the_last_step(path: Seq<u8>)
    ensures
        match parent_of(path) {
            Some(parent) => parts(path).len() > 0 && parts(path).last() != PartView::Root
                && parts(parent) == parts(path).drop_last(),
            None => parts(path).len() == 0 || parts(path) == seq![PartView::Root],
        },
{
    let n = path.len() as int;
    assert(path.take(n) =~= path);
    lemma_cut_back(path, n);
    let end = cut_back(path, n);
    if end > body(path) {
        lemma_piece_start(path, end);
        let start = piece_start(path, end);
        assert(start < end);
        lemma_take_piece(path, start, end);
        lemma_split_some(path.take(start), 47);
        let short = split(path.take(start), 47);
        let long = split(path.take(end), 47);
        let piece = path.subrange(start, end);
        if dot(piece) {
            assert(path[end - 1] == piece[0]);
            assert(start == end - 1);
            assert(false);
        }
        assert(long.drop_last() =~= short.drop_last());
        if start > 0 {
            assert(path.take(start).last() == 47);
        }
        assert(short.last() =~= Seq::<u8>::empty());
        assert(parts_of(short) =~= parts_of(short.drop_last()));
        assert(parts_of(long) =~= parts_of(short) + part_of(piece, long.len() == 1));
        assert(part_of(piece, long.len() == 1).len() == 1);
        assert(parts(path.take(end)).drop_last() =~= parts(path.take(start)));
        lemma_cut_back(path, start);
    } else if absolute(path) {
        assert(path.take(1) =~= seq![47u8]);
        lemma_root();
    } else if path.len() == 0 {
        assert(path =~= Seq::<u8>::empty());
        lemma_short_parts();
    } else {
        assert(path.take(1) =~= seq![46u8]);
        lemma_short_parts();
        assert(parts(path).drop_last() =~= Seq::<PartView>::empty());
    }
}

proof fn lemma_root()
    ensures
        parts(seq![47u8]) == seq![PartView::Root],
{
    let root = seq![47u8];
    assert(root.drop_last() =~= Seq::<u8>::empty());
    let none = Seq::<u8>::empty();
    assert(split(none, 47) =~= seq![Seq::<u8>::empty()]);
    assert(split(root, 47) =~= seq![Seq::<u8>::empty(), Seq::<u8>::empty()]);
    assert(seq![Seq::<u8>::empty(), Seq::<u8>::empty()].drop_last() =~= seq![Seq::<u8>::empty()]);
    assert(seq![Seq::<u8>::empty()].drop_last() =~= Seq::<Seq<u8>>::empty());
    assert(parts_of(Seq::<Seq<u8>>::empty()) =~= Seq::<PartView>::empty());
    assert(parts_of(seq![Seq::<u8>::empty()]) =~= Seq::<PartView>::empty());
    assert(parts_of(seq![Seq::<u8>::empty(), Seq::<u8>::empty()]) =~= Seq::<PartView>::empty());
    assert(parts(root) =~= seq![PartView::Root]);
}

proof fn lemma_short_parts()
    ensures
        parts(Seq::empty()) == Seq::<PartView>::empty(),
        parts(seq![46u8]) == seq![PartView::Current],
{
    let none = Seq::<u8>::empty();
    assert(split(none, 47) =~= seq![none]);
    assert(seq![none].drop_last() =~= Seq::<Seq<u8>>::empty());
    assert(parts_of(Seq::<Seq<u8>>::empty()) =~= Seq::<PartView>::empty());
    assert(parts(none) =~= Seq::<PartView>::empty());
    let one = seq![46u8];
    assert(one.drop_last() =~= none);
    assert(none.push(46u8) =~= one);
    assert(split(one, 47) =~= seq![one]);
    assert(seq![one].drop_last() =~= Seq::<Seq<u8>>::empty());
    assert(parts(one) =~= seq![PartView::Current]);
}

fn push_part(list: &mut Vec<Part>, piece: Vec<u8>, front: bool)
    ensures
        parts_view(final(list)@) == parts_view(old(list)@) + part_of(piece@, front),
{
    let ghost step = part_of(piece@, front);
    let ghost was = list@;
    if piece.len() == 0 {
    } else if piece.len() == 1 && piece[0] == 46 {
        if front {
            list.push(Part::Current);
        }
    } else if piece.len() == 2 && piece[0] == 46 && piece[1] == 46 {
        list.push(Part::Up);
    } else {
        list.push(Part::Name(piece));
    }
    assert(parts_view(list@) =~= parts_view(was) + step);
}

/// Does the first list start with the second?
pub fn starts_with_parts(list: &Vec<Part>, front: &Vec<Part>) -> (does: bool)
    ensures
        does == parts_view(front@).is_prefix_of(parts_view(list@)),
{
    if list.len() < front.len() {
        return false;
    }
    let mut i: usize = 0;
    while i < front.len()
        invariant
            i <= front.len() <= list.len(),
            forall|k: int| 0 <= k < i ==> list@[k]@ == front@[k]@,
        decreases front.len() - i,
    {
        if !list[i].same_as(&front[i]) {
            assert(parts_view(list@).subrange(0, front.len() as int)[i as int] != parts_view(
                front@,
            )[i as int]);
            return false;
        }
        i = i + 1;
    }
    assert(parts_view(list@).subrange(0, front.len() as int) =~= parts_view(front@));
    true
}

/// The sort key of one step. A root comes before `.`, that before `..`, and that before names, which
/// are ordered by their bytes.
pub open spec fn part_key(part: PartView) -> Seq<u32> {
    match part {
        PartView::Root => seq![1],
        PartView::Current => seq![2],
        PartView::Up => seq![3],
        PartView::Name(name) => seq![4u32] + Seq::new(
            name.len(),
            |i: int| (name[i] as u32 + 1) as u32,
        ) + seq![0],
    }
}

pub open spec fn parts_key(list: Seq<PartView>) -> Seq<u32>
    decreases list.len(),
{
    if list.len() == 0 {
        Seq::empty()
    } else {
        parts_key(list.drop_last()) + part_key(list.last())
    }
}

/// The sort key of a path: paths are ordered step by step. Two paths have the same key exactly when
/// they have the same steps.
pub open spec fn path_key(path: Seq<u8>) -> Seq<u32> {
    parts_key(parts(path))
}

proof fn lemma_parts_key_front(list: Seq<PartView>)
    requires
        list.len() > 0,
    ensures
        parts_key(list) == part_key(list[0]) + parts_key(list.skip(1)),
    decreases list.len(),
{
    if list.len() == 1 {
        assert(list.drop_last() =~= Seq::empty());
        assert(list.skip(1) =~= Seq::empty());
        assert(parts_key(list) =~= part_key(list[0]) + parts_key(list.skip(1)));
    } else {
        lemma_parts_key_front(list.drop_last());
        assert(list.drop_last().skip(1) =~= list.skip(1).drop_last());
        assert(parts_key(list) =~= part_key(list[0]) + parts_key(list.skip(1)));
    }
}

proof fn lemma_part_key_apart(a: PartView, x: Seq<u32>, b: PartView, y: Seq<u32>)
    requires
        part_key(a) + x == part_key(b) + y,
    ensures
        a == b,
        x == y,
{
    let left = part_key(a) + x;
    let right = part_key(b) + y;
    assert(left[0] == part_key(a)[0]);
    assert(right[0] == part_key(b)[0]);
    if let PartView::Name(n) = a {
        if let PartView::Name(m) = b {
            assert(left[1 + n.len() as int] == 0);
            assert(right[1 + m.len() as int] == 0);
            if n.len() < m.len() {
                assert(right[1 + n.len() as int] == (m[n.len() as int] as u32 + 1) as u32);
            }
            if m.len() < n.len() {
                assert(left[1 + m.len() as int] == (n[m.len() as int] as u32 + 1) as u32);
            }
            assert forall|i: int| 0 <= i < n.len() implies n[i] == m[i] by {
                assert(left[1 + i] == (n[i] as u32 + 1) as u32);
                assert(right[1 + i] == (m[i] as u32 + 1) as u32);
            }
            assert(n =~= m);
        }
    }
    assert(left.skip(part_key(a).len() as int) =~= x);
    assert(right.skip(part_key(b).len() as int) =~= y);
}

proof fn lemma_parts_key_some(list: Seq<PartView>)
    requires
        list.len() > 0,
    ensures
        parts_key(list).len() > 0,
{
    assert(part_key(list.last()).len() > 0);
}

proof fn lemma_parts_key_injective(a: Seq<PartView>, b: Seq<PartView>)
    requires
        parts_key(a) == parts_key(b),
    ensures
        a == b,
    decreases a.len(),
{
    if a.len() == 0 {
        if b.len() > 0 {
            lemma_parts_key_some(b);
        }
        assert(a =~= b);
    } else if b.len() == 0 {
        lemma_parts_key_some(a);
    } else {
        let x = parts_key(a.skip(1));
        let y = parts_key(b.skip(1));
        lemma_parts_key_front(a);
        lemma_parts_key_front(b);
        lemma_part_key_apart(a[0], x, b[0], y);
        lemma_parts_key_injective(a.skip(1), b.skip(1));
        assert(a =~= seq![a[0]] + a.skip(1));
        assert(b =~= seq![b[0]] + b.skip(1));
    }
}

/// Paths have the same sort key exactly when they have the same steps.
pub proof fn law_keys_tell_paths_apart(left: Seq<u8>, right: Seq<u8>)
    ensures
        path_key(left) == path_key(right) <==> parts(left) == parts(right),
{
    if path_key(left) == path_key(right) {
        lemma_parts_key_injective(parts(left), parts(right));
    }
}

impl FilePath {
    /// The sort key of the path.
    pub fn key(&self) -> (key: Vec<u32>)
        ensures
            key@ == path_key(self@),
    {
        let list = self.parts();
        let ghost steps = parts(self@);
        let mut key: Vec<u32> = Vec::new();
        let mut i: usize = 0;
        assert(key@ =~= parts_key(steps.take(0)));
        while i < list.len()
            invariant
                i <= list.len(),
                steps == parts_view(list@),
                key@ == parts_key(steps.take(i as int)),
            decreases list.len() - i,
        {
            let ghost was = key@;
            let ghost step = steps[i as int];
            assert(steps.take(i + 1).drop_last() =~= steps.take(i as int));
            match &list[i] {
                Part::Root => key.push(1),
                Part::Current => key.push(2),
                Part::Up => key.push(3),
                Part::Name(name) => {
                    key.push(4);
                    let mut k: usize = 0;
                    while k < name.len()
                        invariant
                            k <= name.len(),
                            key@ =~= was + (seq![4u32] + Seq::new(
                                k as nat,
                                |j: int| (name@[j] as u32 + 1) as u32,
                            )),
                        decreases name.len() - k,
                    {
                        key.push(name[k] as u32 + 1);
                        k = k + 1;
                    }
                    key.push(0);
                },
            }
            assert(key@ =~= was + part_key(step));
            i = i + 1;
        }
        assert(steps.take(i as int) =~= steps);
        key
    }
}

/// A path, the path without its last step, and so on until there is nothing left to take off.
pub open spec fn ancestors_of(path: Seq<u8>) -> Seq<Seq<u8>>
    decreases parts(path).len(),
{
    match parent_of(path) {
        Some(parent) => {
            proof {
                law_parent_drops_the_last_step(path);
            }
            seq![path] + ancestors_of(parent)
        },
        None => seq![path],
    }
}

impl FilePath {
    /// The path and those above it, the nearest first.
    pub fn ancestors(&self) -> (list: Vec<FilePath>)
        ensures
            paths_view(list@) == ancestors_of(self@),
    {
        let mut list: Vec<FilePath> = Vec::new();
        let mut path = self.copy();
        assert(paths_view(list@) + ancestors_of(self@) =~= ancestors_of(self@));
        loop
            invariant
                paths_view(list@) + ancestors_of(path@) == ancestors_of(self@),
            decreases parts(path@).len(),
        {
            let ghost before = paths_view(list@);
            let ghost here = path@;
            proof {
                law_parent_drops_the_last_step(here);
                lemma_paths_push(list@, path);
            }
            match path.parent() {
                Some(parent) => {
                    list.push(path);
                    assert(before.push(here) + ancestors_of(parent@) =~= before + (seq![here]
                        + ancestors_of(parent@)));
                    path = parent;
                },
                None => {
                    list.push(path);
                    assert(before.push(here) =~= before + seq![here]);
                    return list;
                },
            }
        }
    }
}

/// One step that is a name: not empty, without a slash, and neither `.` nor `..`.
pub open spec fn is_name(name: Seq<u8>) -> bool {
    &&& name.len() > 0
    &&& !name.contains(47)
    &&& !dot(name)
    &&& !dot_dot(name)
}

pub proof fn lemma_name_parts(name: Seq<u8>)
    requires
        is_name(name),
    ensures
        parts(name) == seq![PartView::Name(name)],
        split(name, 47) == seq![name],
        !absolute(name),
{
    assert forall|k: int| 0 <= k < name.len() implies name[k] != 47 by {
        assert(name.contains(name[k]));
    }
    assert(name.take(name.len() as int) =~= name);
    lemma_take_piece(name, 0, name.len() as int);
    assert(name.take(0) =~= Seq::<u8>::empty());
    assert(split(name.take(0), 47) =~= seq![Seq::<u8>::empty()]);
    assert(name.subrange(0, name.len() as int) =~= name);
    assert(split(name, 47) =~= seq![name]);
    assert(seq![name].drop_last() =~= Seq::<Seq<u8>>::empty());
    assert(parts_of(Seq::<Seq<u8>>::empty()) =~= Seq::<PartView>::empty());
    assert(name[0] != 47);
    assert(parts_of(seq![name]) =~= part_of(name, true));
    assert(parts(name) =~= seq![PartView::Name(name)]);
}

/// Is it the name of an entry of a directory?
pub fn is_plain_name(name: &[u8]) -> (is: bool)
    ensures
        is == is_name(name@),
{
    let mut i: usize = 0;
    while i < name.len()
        invariant
            i <= name.len(),
            forall|k: int| 0 <= k < i ==> name@[k] != 47,
        decreases name.len() - i,
    {
        if name[i] == 47 {
            assert(name@.contains(47));
            return false;
        }
        i = i + 1;
    }
    if name.len() == 0 {
        return false;
    }
    if name.len() == 1 && name[0] == 46 {
        return false;
    }
    !(name.len() == 2 && name[0] == 46 && name[1] == 46)
}

/// Is a path the other, or below it?
pub open spec fn inside(outer: Seq<u8>, path: Seq<u8>) -> bool {
    parts(outer).is_prefix_of(parts(path))
}

/// A name in a directory is below whatever the directory is below.
pub proof fn law_names_stay_inside(outer: Seq<u8>, dir: Seq<u8>, name: Seq<u8>)
    requires
        inside(outer, dir),
        is_name(name),
    ensures
        inside(outer, under(dir, name)),
{
    lemma_name_parts(name);
    law_join_adds_steps(dir, name);
    let n = parts(outer).len() as int;
    assert(parts(under(dir, name)).take(n) =~= parts(dir).take(n));
    assert(parts(under(dir, name)).subrange(0, n) =~= parts(dir).subrange(0, n));
}

/// A name put inside a path is the name that path ends in, and what is above it is the path.
pub proof fn law_name_under_path(base: Seq<u8>, name: Seq<u8>)
    requires
        is_name(name),
    ensures
        last_name(under(base, name)) == Some(name),
        parent_of(under(base, name)) is Some,
        parts(parent_of(under(base, name))->0) == parts(base),
{
    lemma_name_parts(name);
    law_join_adds_steps(base, name);
    law_parent_drops_the_last_step(under(base, name));
    assert(parts(under(base, name)).drop_last() =~= parts(base));
    let all = parts(under(base, name));
    assert(all.last() == PartView::Name(name));
    if parent_of(under(base, name)) is None {
        assert(all.last() == PartView::Root);
    }
}

/// Paths with the same steps end in the same name.
pub proof fn lemma_same_last_name(left: Seq<u8>, right: Seq<u8>)
    requires
        parts(left) == parts(right),
    ensures
        last_name(left) == last_name(right),
        parent_of(left) is Some <==> parent_of(right) is Some,
        parent_of(left) is Some ==> parts(parent_of(left)->0) == parts(parent_of(right)->0),
{
    law_parent_drops_the_last_step(left);
    law_parent_drops_the_last_step(right);
    if parts(left).len() > 0 {
        assert(parts(left) == seq![PartView::Root] ==> parts(left).last() == PartView::Root);
    }
}

proof fn lemma_pieces(whole: Seq<u8>, separator: u8, i: int)
    requires
        0 <= i < split(whole, separator).len(),
    ensures
        !split(whole, separator)[i].contains(separator),
    decreases whole.len(),
{
    if whole.len() > 0 {
        let before = split(whole.drop_last(), separator);
        lemma_split_some(whole.drop_last(), separator);
        let all = split(whole, separator);
        if i < before.len() - 1 {
            lemma_pieces(whole.drop_last(), separator, i);
        } else if whole.last() == separator {
            if i < before.len() {
                lemma_pieces(whole.drop_last(), separator, i);
            }
        } else {
            lemma_pieces(whole.drop_last(), separator, before.len() - 1);
            if all[i].contains(separator) {
                let k = choose|k: int| 0 <= k < all[i].len() && all[i][k] == separator;
                assert(before.last()[k] == separator);
            }
        }
    }
}

proof fn lemma_names_are_plain(pieces: Seq<Seq<u8>>, i: int)
    requires
        forall|k: int| 0 <= k < pieces.len() ==> !(#[trigger] pieces[k]).contains(47),
        0 <= i < parts_of(pieces).len(),
    ensures
        parts_of(pieces)[i] matches PartView::Name(name) ==> is_name(name),
    decreases pieces.len(),
{
    let before = parts_of(pieces.drop_last());
    if i < before.len() {
        lemma_names_are_plain(pieces.drop_last(), i);
    } else {
        assert(!pieces[pieces.len() - 1].contains(47));
    }
}

/// The name that a path ends in is the name of an entry of a directory.
pub proof fn law_last_name_is_a_name(path: Seq<u8>)
    ensures
        last_name(path) matches Some(name) ==> is_name(name),
{
    let pieces = split(path, 47);
    assert forall|k: int| 0 <= k < pieces.len() implies !(#[trigger] pieces[k]).contains(47) by {
        lemma_pieces(path, 47, k);
    }
    if last_name(path) is Some {
        let all = parts(path);
        let inner = parts_of(pieces);
        assert(all.last() == inner[inner.len() - 1]);
        lemma_names_are_plain(pieces, inner.len() - 1);
    }
}

/// Is a text one name?
pub open spec fn is_name_text(text: Seq<char>) -> bool {
    &&& is_ascii_chars(text)
    &&& text.len() > 0
    &&& forall|i: int| 0 <= i < text.len() ==> #[trigger] text[i] != '/'
    &&& !(text.len() == 1 && text[0] == '.')
    &&& !(text.len() == 2 && text[0] == '.' && text[1] == '.')
}

pub proof fn lemma_name_text(text: Seq<char>)
    requires
        is_name_text(text),
    ensures
        is_name(encode_utf8(text)),
{
    let name = encode_utf8(text);
    is_ascii_chars_encode_utf8(text);
    if name.contains(47) {
        let i = choose|i: int| 0 <= i < name.len() && name[i] == 47;
        assert(text[i] as u8 == 47);
        assert(text[i] == '/');
    }
    if dot(name) {
        assert(text[0] as u8 == name[0]);
    }
    if dot_dot(name) {
        assert(text[0] as u8 == name[0] && text[1] as u8 == name[1]);
    }
}

/// A name, given as text, is one step more.
pub proof fn lemma_name_text_below(base: Seq<u8>, text: Seq<char>)
    requires
        is_name_text(text),
    ensures
        parts(under_text(base, text)) == parts(base).push(PartView::Name(encode_utf8(text))),
{
    lemma_name_text(text);
    lemma_name_parts(encode_utf8(text));
    law_join_adds_steps(base, encode_utf8(text));
    assert(parts(under_text(base, text)) =~= parts(base).push(PartView::Name(encode_utf8(text))));
}

/// A relative path behind another, both given as one text, is the one inside the other.
pub proof fn lemma_text_joins(base: Seq<u8>, above: Seq<char>, text: Seq<char>, whole: Seq<char>)
    requires
        is_ascii_chars(above),
        above.len() > 0,
        above[0] != '/',
        above.last() != '/',
        is_ascii_chars(text),
        text.len() > 0,
        text[0] != '/',
        whole == above.push('/') + text,
    ensures
        under_text(base, whole) == under_text(under_text(base, above), text),
{
    let inner = encode_utf8(above);
    assert(is_ascii_chars(whole));
    is_ascii_chars_encode_utf8(above);
    is_ascii_chars_encode_utf8(text);
    is_ascii_chars_encode_utf8(whole);
    assert(above[0] as u8 == inner[0]);
    assert(text[0] as u8 == encode_utf8(text)[0]);
    assert(inner.last() == above[above.len() - 1] as u8);
    assert(whole[0] as u8 == encode_utf8(whole)[0]);
    assert(encode_utf8(whole) =~= inner.push(47) + encode_utf8(text)) by {
        assert forall|i: int| 0 <= i < whole.len() implies encode_utf8(whole)[i] == (inner.push(47) + encode_utf8(
            text,
        ))[i] by {
            assert(whole[i] as u8 == encode_utf8(whole)[i]);
            if i < above.len() {
                assert(above[i] as u8 == inner[i]);
            } else if i > above.len() {
                assert(text[i - above.len() - 1] as u8 == encode_utf8(text)[i - above.len() - 1]);
            }
        }
    }
    assert(under_text(base, whole) =~= under_text(under_text(base, above), text));
}

/// A further name behind a relative path, both given as one text, is one step more.
pub proof fn lemma_text_goes_on(base: Seq<u8>, above: Seq<char>, text: Seq<char>, whole: Seq<char>)
    requires
        is_ascii_chars(above),
        above.len() > 0,
        above[0] != '/',
        above.last() != '/',
        is_name_text(text),
        whole == above.push('/') + text,
    ensures
        under_text(base, whole) == under_text(under_text(base, above), text),
        parts(under_text(base, whole)) == parts(under_text(base, above)).push(PartView::Name(encode_utf8(text))),
{
    lemma_text_joins(base, above, text, whole);
    lemma_name_text_below(under_text(base, above), text);
}

} // verus!
