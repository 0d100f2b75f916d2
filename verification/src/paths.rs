//! File-system paths as sequences of components, with the path operations the
//! report renderers use (`parent`, `starts_with`, `strip_prefix`, `file_stem`,
//! display).
use vstd::prelude::*;
use crate::text::push_char;

verus! {

/// A path component as a mathematical value.
pub enum PathPart {
    /// The root directory `/`.
    Root,
    /// The current directory `.`.
    Current,
    /// The parent directory `..`.
    Up,
    /// A plain file or directory name.
    Name(Seq<char>),
}

/// A component of a file-system path.
pub enum Component {
    RootDir,
    CurDir,
    ParentDir,
    Normal(String),
}

impl View for Component {
    type V = PathPart;

    open spec fn view(&self) -> PathPart {
        match self {
            Component::RootDir => PathPart::Root,
            Component::CurDir => PathPart::Current,
            Component::ParentDir => PathPart::Up,
            Component::Normal(s) => PathPart::Name(s@),
        }
    }
}

/// A file-system path, held as the sequence of its components.
pub struct FilePath {
    pub components: Vec<Component>,
}

impl View for FilePath {
    type V = Seq<PathPart>;

    open spec fn view(&self) -> Seq<PathPart> {
        self.components@.map_values(|c: Component| c@)
    }
}

/// The text of one component as it is displayed.
pub open spec fn part_text(p: PathPart) -> Seq<char> {
    match p {
        PathPart::Root => seq!['/'],
        PathPart::Current => seq!['.'],
        PathPart::Up => seq!['.', '.'],
        PathPart::Name(n) => n,
    }
}

/// How a path is displayed: components joined by `/`, with no separator
/// after the root.
pub open spec fn display(p: Seq<PathPart>) -> Seq<char>
    decreases p.len(),
{
    if p.len() == 0 {
        Seq::empty()
    } else if p.len() == 1 {
        part_text(p[0])
    } else if p[p.len() - 2] is Root {
        display(p.drop_last()) + part_text(p.last())
    } else {
        display(p.drop_last()) + seq!['/'] + part_text(p.last())
    }
}

/// The path without its last component; none for the empty path and for a
/// path that ends in the root.
pub open spec fn parent(p: Seq<PathPart>) -> Option<Seq<PathPart>> {
    if p.len() == 0 || p.last() is Root {
        None
    } else {
        Some(p.drop_last())
    }
}

/// Whether the components of `base` are a prefix of those of `p`.
pub open spec fn starts_with(p: Seq<PathPart>, base: Seq<PathPart>) -> bool {
    base.len() <= p.len() && p.take(base.len() as int) == base
}

/// The components of `p` after those of `base`, where `p` starts with `base`.
pub open spec fn strip_prefix(p: Seq<PathPart>, base: Seq<PathPart>) -> Option<Seq<PathPart>> {
    if starts_with(p, base) {
        Some(p.skip(base.len() as int))
    } else {
        None
    }
}

/// The last component, where it is a plain name.
pub open spec fn file_name(p: Seq<PathPart>) -> Option<Seq<char>> {
    if p.len() > 0 && p.last() is Name {
        Some(p.last()->Name_0)
    } else {
        None
    }
}

/// The index of the last `.` in `s`, or -1 where there is none.
pub open spec fn last_dot(s: Seq<char>) -> int
    decreases s.len(),
{
    if s.len() == 0 {
        -1
    } else if s.last() == '.' {
        s.len() - 1
    } else {
        last_dot(s.drop_last())
    }
}

/// A file name without its extension: the part before the last `.`, unless
/// that part would be empty or the name is `..`.
pub open spec fn stem_of(name: Seq<char>) -> Seq<char> {
    if name == seq!['.', '.'] || last_dot(name) <= 0 {
        name
    } else {
        name.take(last_dot(name))
    }
}

/// The file stem of a path.
pub open spec fn file_stem(p: Seq<PathPart>) -> Option<Seq<char>> {
    match file_name(p) {
        Some(n) => Some(stem_of(n)),
        None => None,
    }
}

proof fn lemma_last_dot_unique(s: Seq<char>, k: int)
    requires
        -1 <= k < s.len(),
        k >= 0 ==> s[k] == '.',
        forall|j: int| k < j < s.len() ==> s[j] != '.',
    ensures
        last_dot(s) == k,
    decreases s.len(),
{
    if s.len() > 0 && s.last() != '.' {
        lemma_last_dot_unique(s.drop_last(), k);
    }
}

impl Component {
    /// A copy of this component.
    pub fn duplicate(&self) -> (r: Component)
        ensures
            r@ == self@,
    {
        match self {
            Component::RootDir => Component::RootDir,
            Component::CurDir => Component::CurDir,
            Component::ParentDir => Component::ParentDir,
            Component::Normal(s) => Component::Normal(s.clone()),
        }
    }

    /// Whether two components are equal.
    pub fn same(&self, other: &Component) -> (r: bool)
        ensures
            r == (self@ == other@),
    {
        match self {
            Component::RootDir => other.is_root(),
            Component::CurDir => other.is_cur(),
            Component::ParentDir => other.is_up(),
            Component::Normal(a) => match other {
                Component::Normal(b) => a.eq(b),
                _ => false,
            },
        }
    }

    /// Whether this is the current directory.
    pub fn is_cur(&self) -> (r: bool)
        ensures
            r == (self@ is Current),
    {
        match self {
            Component::CurDir => true,
            _ => false,
        }
    }

    /// Whether this is the parent directory.
    pub fn is_up(&self) -> (r: bool)
        ensures
            r == (self@ is Up),
    {
        match self {
            Component::ParentDir => true,
            _ => false,
        }
    }

    /// Whether this is the root directory.
    pub fn is_root(&self) -> (r: bool)
        ensures
            r == (self@ is Root),
    {
        match self {
            Component::RootDir => true,
            _ => false,
        }
    }

    /// Appends the displayed text of this component to `s`.
    pub fn push_text(&self, s: &mut String)
        ensures
            final(s)@ == old(s)@ + part_text(self@),
    {
        match self {
            Component::RootDir => {
                push_char(s, '/');
                assert(final(s)@ =~= old(s)@ + part_text(self@));
            },
            Component::CurDir => {
                push_char(s, '.');
                assert(final(s)@ =~= old(s)@ + part_text(self@));
            },
            Component::ParentDir => {
                push_char(s, '.');
                push_char(s, '.');
                assert(final(s)@ =~= old(s)@ + part_text(self@));
            },
            Component::Normal(n) => {
                s.append(n.as_str());
            },
        }
    }
}

impl FilePath {
    /// The path with no components.
    pub fn empty() -> (r: FilePath)
        ensures
            r@ == Seq::<PathPart>::empty(),
    {
        let r = FilePath { components: Vec::new() };
        assert(r@ =~= Seq::<PathPart>::empty());
        r
    }

    /// A path made of the first `n` components of this one, followed by none.
    fn first_components(&self, n: usize) -> (r: FilePath)
        requires
            n <= self@.len(),
        ensures
            r@ == self@.take(n as int),
    {
        let mut v: Vec<Component> = Vec::new();
        let mut i: usize = 0;
        while i < n
            invariant
                i <= n,
                n <= self.components@.len(),
                v@.len() == i,
                forall|j: int| 0 <= j < i ==> (#[trigger] v@[j])@ == self.components@[j]@,
            decreases n - i,
        {
            v.push(self.components[i].duplicate());
            i = i + 1;
        }
        let r = FilePath { components: v };
        assert(r@ =~= self@.take(n as int));
        r
    }

    /// A path made of the components of this one from index `n` on.
    fn last_components(&self, n: usize) -> (r: FilePath)
        requires
            n <= self@.len(),
        ensures
            r@ == self@.skip(n as int),
    {
        let mut v: Vec<Component> = Vec::new();
        let mut i: usize = n;
        while i < self.components.len()
            invariant
                n <= i <= self.components@.len(),
                v@.len() == i - n,
                forall|j: int| 0 <= j < i - n ==> (#[trigger] v@[j])@ == self.components@[j + n]@,
            decreases self.components@.len() - i,
        {
            v.push(self.components[i].duplicate());
            i = i + 1;
        }
        let r = FilePath { components: v };
        assert(r@ =~= self@.skip(n as int));
        r
    }

    /// A copy of this path.
    pub fn duplicate(&self) -> (r: FilePath)
        ensures
            r@ == self@,
    {
        let r = self.first_components(self.components.len());
        assert(self@.take(self@.len() as int) =~= self@);
        r
    }

    /// Whether two paths have the same components.
    pub fn same_path(&self, other: &FilePath) -> (r: bool)
        ensures
            r == (self@ == other@),
    {
        if self.components.len() != other.components.len() {
            assert(self@.len() != other@.len());
            return false;
        }
        let mut i: usize = 0;
        while i < self.components.len()
            invariant
                i <= self.components@.len(),
                self.components@.len() == other.components@.len(),
                forall|j: int| 0 <= j < i ==> self@[j] == other@[j],
            decreases self.components@.len() - i,
        {
            if !self.components[i].same(&other.components[i]) {
                assert(self@[i as int] != other@[i as int]);
                return false;
            }
            i = i + 1;
        }
        assert(self@ =~= other@);
        true
    }

    /// The parent of this path (`Path::parent`).
    pub fn parent(&self) -> (r: Option<FilePath>)
        ensures
            r is Some <==> parent(self@) is Some,
            r matches Some(p) ==> parent(self@) == Some(p@),
    {
        let n = self.components.len();
        if n == 0 {
            return None;
        }
        match self.components[n - 1] {
            Component::RootDir => None,
            _ => {
                let p = self.first_components(n - 1);
                assert(self@.drop_last() =~= self@.take(n - 1));
                Some(p)
            },
        }
    }

    /// Whether this path starts with the components of `base` (`Path::starts_with`).
    pub fn starts_with(&self, base: &FilePath) -> (r: bool)
        ensures
            r == starts_with(self@, base@),
    {
        if base.components.len() > self.components.len() {
            return false;
        }
        let mut i: usize = 0;
        while i < base.components.len()
            invariant
                i <= base.components@.len() <= self.components@.len(),
                forall|j: int| 0 <= j < i ==> self@[j] == base@[j],
            decreases base.components@.len() - i,
        {
            if !self.components[i].same(&base.components[i]) {
                assert(self@.take(base@.len() as int)[i as int] != base@[i as int]);
                return false;
            }
            i = i + 1;
        }
        assert(self@.take(base@.len() as int) =~= base@);
        true
    }

    /// This path relative to `base`, where it starts with `base` (`Path::strip_prefix`).
    pub fn strip_prefix(&self, base: &FilePath) -> (r: Option<FilePath>)
        ensures
            r is Some <==> strip_prefix(self@, base@) is Some,
            r matches Some(p) ==> strip_prefix(self@, base@) == Some(p@),
    {
        if self.starts_with(base) {
            Some(self.last_components(base.components.len()))
        } else {
            None
        }
    }

    /// The last component where it is a plain name (`Path::file_name`).
    pub fn file_name(&self) -> (r: Option<String>)
        ensures
            r is Some <==> file_name(self@) is Some,
            r matches Some(n) ==> file_name(self@) == Some(n@),
    {
        let n = self.components.len();
        if n == 0 {
            return None;
        }
        match &self.components[n - 1] {
            Component::Normal(s) => Some(s.clone()),
            _ => None,
        }
    }

    /// The file name without its extension (`Path::file_stem`).
    pub fn file_stem(&self) -> (r: Option<String>)
        ensures
            r is Some <==> file_stem(self@) is Some,
            r matches Some(n) ==> file_stem(self@) == Some(n@),
    {
        match self.file_name() {
            None => None,
            Some(name) => Some(stem(&name)),
        }
    }

    /// The displayed text of this path.
    pub fn display(&self) -> (r: String)
        ensures
            r@ == display(self@),
    {
        let mut r = String::new();
        let mut i: usize = 0;
        while i < self.components.len()
            invariant
                i <= self.components@.len(),
                r@ == display(self@.take(i as int)),
            decreases self.components@.len() - i,
        {
            let ghost before = self@.take(i as int);
            if i > 0 {
                match self.components[i - 1] {
                    Component::RootDir => {},
                    _ => {
                        push_char(&mut r, '/');
                    },
                }
            }
            self.components[i].push_text(&mut r);
            proof {
                let after = self@.take(i + 1);
                assert(after.drop_last() =~= before);
                if i > 0 {
                    assert(after[after.len() - 2] == self@[i - 1]);
                }
                assert(after.last() == self@[i as int]);
                if i == 0 {
                    assert(r@ =~= part_text(after[0]));
                } else if self@[i - 1] is Root {
                    assert(r@ =~= display(before) + part_text(after.last()));
                } else {
                    assert(r@ =~= display(before) + seq!['/'] + part_text(after.last()));
                }
            }
            i = i + 1;
        }
        assert(self@.take(self@.len() as int) =~= self@);
        r
    }
}

/// The file name without its extension.
pub fn stem(name: &String) -> (r: String)
    ensures
        r@ == stem_of(name@),
{
    let s = name.as_str();
    let len = s.unicode_len();
    if len == 2 && s.get_char(0) == '.' && s.get_char(1) == '.' {
        assert(name@ =~= seq!['.', '.']);
        return name.clone();
    }
    let mut i: usize = len;
    while i > 0 && s.get_char(i - 1) != '.'
        invariant
            i <= len,
            len == name@.len(),
            s@ == name@,
            forall|j: int| i <= j < len ==> name@[j] != '.',
        decreases i,
    {
        i = i - 1;
    }
    proof {
        lemma_last_dot_unique(name@, i - 1);
        if len == 2 {
            assert(name@ != seq!['.', '.']) by {
                if name@ == seq!['.', '.'] {
                    assert(name@[0] == '.' && name@[1] == '.');
                }
            }
        }
    }
    if i <= 1 {
        name.clone()
    } else {
        String::from_str(s.substring_char(0, i - 1))
    }
}

} // verus!
