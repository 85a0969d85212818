//! Unix paths as `std::path` splits them into components: `/` separates
//! components, repeated separators and `.` components are dropped, except
//! for a `.` that starts a relative path.

use vstd::prelude::*;

verus! {

/// One component of a path.
pub enum PathPart {
    Root,
    Current,
    Parent,
    Name(Seq<u8>),
}

/// A path component, as `std::path::Component` gives it on Unix.
pub enum Component {
    RootDir,
    CurDir,
    ParentDir,
    Normal(Vec<u8>),
}

impl View for Component {
    type V = PathPart;

    open spec fn view(&self) -> PathPart {
        match self {
            Component::RootDir => PathPart::Root,
            Component::CurDir => PathPart::Current,
            Component::ParentDir => PathPart::Parent,
            Component::Normal(name) => PathPart::Name(name@),
        }
    }
}

/// The views of a list of components.
pub open spec fn part_views(parts: Seq<Component>) -> Seq<PathPart> {
    parts.map_values(|c: Component| c@)
}

/// Index of the first `/` of `s`, or its length when there is none.
pub open spec fn piece_end(s: Seq<u8>) -> nat
    decreases s.len(),
{
    if s.len() == 0 || s[0] == 0x2f {
        0
    } else {
        1 + piece_end(s.drop_first())
    }
}

/// The component that the text between two separators makes: none when it
/// is empty, or `.` anywhere but at the start of a relative path.
pub open spec fn piece_parts(piece: Seq<u8>, at_start: bool) -> Seq<PathPart> {
    if piece.len() == 0 {
        Seq::empty()
    } else if piece =~= seq![0x2eu8] {
        if at_start {
            seq![PathPart::Current]
        } else {
            Seq::empty()
        }
    } else if piece =~= seq![0x2eu8, 0x2eu8] {
        seq![PathPart::Parent]
    } else {
        seq![PathPart::Name(piece)]
    }
}

/// The components of the separator-delimited pieces of `s`.
pub open spec fn parts_from(s: Seq<u8>, at_start: bool) -> Seq<PathPart>
    decreases s.len(),
{
    let end = piece_end(s);
    let here = piece_parts(s.take(end as int), at_start);
    if end < s.len() {
        here + parts_from(s.skip(end + 1 as int), false)
    } else {
        here
    }
}

/// `Path::components` of a Unix path given by its bytes.
pub open spec fn path_components(path: Seq<u8>) -> Seq<PathPart> {
    if path.len() > 0 && path[0] == 0x2f {
        seq![PathPart::Root] + parts_from(path.skip(1), false)
    } else {
        parts_from(path, true)
    }
}

/// `Path::file_name`: the last component when it is a name.
pub open spec fn file_name_of(parts: Seq<PathPart>) -> Option<Seq<u8>> {
    if parts.len() > 0 && parts.last() is Name {
        Some(parts.last()->Name_0)
    } else {
        None
    }
}

/// `Path::ends_with`: the last components are those of `suffix`.
pub open spec fn ends_with_parts(parts: Seq<PathPart>, suffix: Seq<PathPart>) -> bool {
    suffix.len() <= parts.len() && parts.skip(parts.len() - suffix.len()) =~= suffix
}

proof fn lemma_piece_end(s: Seq<u8>, e: int)
    requires
        0 <= e <= s.len(),
        e < s.len() ==> s[e] == 0x2f,
        forall|i: int| 0 <= i < e ==> s[i] != 0x2f,
    ensures
        piece_end(s) == e,
    decreases s.len(),
{
    if s.len() > 0 && s[0] != 0x2f {
        lemma_piece_end(s.drop_first(), e - 1);
    }
}

/// Whether two byte strings are equal.
pub fn same_bytes(a: &[u8], b: &[u8]) -> (same: bool)
    ensures
        same == (a@ == b@),
{
    if a.len() != b.len() {
        return false;
    }
    let mut i: usize = 0;
    while i < a.len()
        invariant
            a@.len() == b@.len(),
            i <= a@.len(),
            forall|j: int| 0 <= j < i ==> a@[j] == b@[j],
        decreases a@.len() - i,
    {
        if a[i] != b[i] {
            return false;
        }
        i += 1;
    }
    assert(a@ =~= b@);
    true
}

/// A copy of `bytes[from..to]`.
pub fn copy_range(bytes: &[u8], from: usize, to: usize) -> (copy: Vec<u8>)
    requires
        from <= to <= bytes@.len(),
    ensures
        copy@ == bytes@.subrange(from as int, to as int),
{
    let mut copy: Vec<u8> = Vec::new();
    let mut i = from;
    while i < to
        invariant
            from <= i <= to <= bytes@.len(),
            copy@ =~= bytes@.subrange(from as int, i as int),
        decreases to - i,
    {
        copy.push(bytes[i]);
        i += 1;
    }
    copy
}

/// The components of the piece `bytes[from..to]`.
fn piece_components(bytes: &[u8], from: usize, to: usize, at_start: bool) -> (parts: Vec<Component>)
    requires
        from <= to <= bytes@.len(),
    ensures
        part_views(parts@) =~= piece_parts(bytes@.subrange(from as int, to as int), at_start),
{
    let ghost piece = bytes@.subrange(from as int, to as int);
    let mut parts: Vec<Component> = Vec::new();
    if from == to {
    } else if to - from == 1 && bytes[from] == 0x2e {
        assert(piece =~= seq![0x2eu8]);
        if at_start {
            parts.push(Component::CurDir);
        }
    } else if to - from == 2 && bytes[from] == 0x2e && bytes[from + 1] == 0x2e {
        assert(piece =~= seq![0x2eu8, 0x2eu8]);
        parts.push(Component::ParentDir);
    } else {
        assert(!(piece =~= seq![0x2eu8]) && !(piece =~= seq![0x2eu8, 0x2eu8])) by {
            if piece.len() == 1 {
                assert(piece[0] == bytes@[from as int]);
            }
            if piece.len() == 2 {
                assert(piece[0] == bytes@[from as int]);
                assert(piece[1] == bytes@[from + 1]);
            }
        }
        parts.push(Component::Normal(copy_range(bytes, from, to)));
    }
    parts
}

/// `Path::components` of a Unix path given by its bytes.
pub fn components(path: &[u8]) -> (parts: Vec<Component>)
    ensures
        part_views(parts@) == path_components(path@),
{
    let len = path.len();
    let mut parts: Vec<Component> = Vec::new();
    let mut pos: usize = 0;
    let mut at_start = true;
    if len > 0 && path[0] == 0x2f {
        parts.push(Component::RootDir);
        pos = 1;
        at_start = false;
    }
    let ghost start = pos;
    assert(path@.skip(0) =~= path@);
    assert(part_views(parts@) =~= if start == 1 {
        seq![PathPart::Root]
    } else {
        Seq::<PathPart>::empty()
    });
    while pos < len
        invariant
            len == path@.len(),
            start <= pos <= len,
            start == 0 ==> at_start == (pos == 0),
            start == 1 ==> !at_start,
            start == 1 <==> (len > 0 && path@[0] == 0x2f),
            path_components(path@) =~= part_views(parts@) + parts_from(path@.skip(pos as int), at_start),
        decreases len - pos,
    {
        let ghost rest = path@.skip(pos as int);
        let mut end = pos;
        while end < len && path[end] != 0x2f
            invariant
                len == path@.len(),
                pos <= end <= len,
                forall|i: int| pos <= i < end ==> path@[i] != 0x2f,
            decreases len - end,
        {
            end += 1;
        }
        proof {
            lemma_piece_end(rest, end - pos);
            assert(rest.take(end - pos) =~= path@.subrange(pos as int, end as int));
        }
        let mut here = piece_components(path, pos, end, at_start);
        let ghost before = part_views(parts@);
        let ghost here_view = part_views(here@);
        parts.append(&mut here);
        assert(part_views(parts@) =~= before + here_view);
        at_start = false;
        if end < len {
            assert(rest.skip(end - pos + 1) =~= path@.skip(end + 1));
            pos = end + 1;
        } else {
            assert(path@.skip(len as int) =~= Seq::<u8>::empty());
            pos = len;
        }
    }
    assert(parts_from(Seq::<u8>::empty(), at_start) =~= Seq::<PathPart>::empty()) by {
        assert(piece_parts(Seq::<u8>::empty(), at_start) =~= Seq::<PathPart>::empty());
    }
    assert(path@.skip(pos as int) =~= Seq::<u8>::empty());
    parts
}

/// Whether two components are the same.
pub fn same_component(a: &Component, b: &Component) -> (same: bool)
    ensures
        same == (a@ == b@),
{
    match (a, b) {
        (Component::RootDir, Component::RootDir) => true,
        (Component::CurDir, Component::CurDir) => true,
        (Component::ParentDir, Component::ParentDir) => true,
        (Component::Normal(x), Component::Normal(y)) => same_bytes(x.as_slice(), y.as_slice()),
        _ => false,
    }
}

/// Whether the last components of `parts` are `suffix`.
pub fn ends_with(parts: &Vec<Component>, suffix: &Vec<Component>) -> (yes: bool)
    ensures
        yes == ends_with_parts(part_views(parts@), part_views(suffix@)),
{
    if suffix.len() > parts.len() {
        return false;
    }
    let parts_len = parts.len();
    let offset = parts_len - suffix.len();
    let ghost pv = part_views(parts@);
    let ghost sv = part_views(suffix@);
    let mut i: usize = 0;
    while i < suffix.len()
        invariant
            offset == parts@.len() - suffix@.len(),
            parts_len == parts@.len(),
            offset + suffix@.len() == parts_len,
            i <= suffix@.len(),
            pv == part_views(parts@),
            sv == part_views(suffix@),
            forall|j: int| 0 <= j < i ==> pv[offset + j] == sv[j],
        decreases suffix@.len() - i,
    {
        if !same_component(&parts[offset + i], &suffix[i]) {
            assert(pv.skip(offset as int)[i as int] != sv[i as int]);
            return false;
        }
        i += 1;
    }
    assert(pv.skip(offset as int) =~= sv);
    true
}

/// Whether two component lists are the same.
pub fn same_parts(a: &Vec<Component>, b: &Vec<Component>) -> (same: bool)
    ensures
        same == (part_views(a@) == part_views(b@)),
{
    if a.len() != b.len() {
        assert(part_views(a@).len() != part_views(b@).len());
        return false;
    }
    let yes = ends_with(a, b);
    assert(part_views(a@).skip(0) =~= part_views(a@));
    yes
}

/// `Path::file_name`: the last component when it is a name.
pub fn file_name(parts: &Vec<Component>) -> (name: Option<&Vec<u8>>)
    ensures
        match name {
            Some(n) => file_name_of(part_views(parts@)) == Some(n@),
            None => file_name_of(part_views(parts@)) is None,
        },
{
    if parts.len() == 0 {
        return None;
    }
    match &parts[parts.len() - 1] {
        Component::Normal(name) => Some(name),
        _ => None,
    }
}

/// `Path::strip_prefix`: the components of `parts` after those of `base`,
/// when `parts` starts with them.
pub open spec fn strip_parts(parts: Seq<PathPart>, base: Seq<PathPart>) -> Option<Seq<PathPart>> {
    if base.len() <= parts.len() && parts.take(base.len() as int) =~= base {
        Some(parts.skip(base.len() as int))
    } else {
        None
    }
}

/// The text of one component: a name, `.`, `..`; the root is written by
/// the separator that follows it.
pub open spec fn part_bytes(part: PathPart) -> Seq<u8> {
    match part {
        PathPart::Root => Seq::empty(),
        PathPart::Current => seq![0x2eu8],
        PathPart::Parent => seq![0x2eu8, 0x2eu8],
        PathPart::Name(name) => name,
    }
}

/// Components written back as a path, with `/` between them.
pub open spec fn join_parts(parts: Seq<PathPart>) -> Seq<u8>
    decreases parts.len(),
{
    if parts.len() == 0 {
        Seq::empty()
    } else if parts.len() == 1 {
        part_bytes(parts[0])
    } else {
        join_parts(parts.drop_last()) + seq![0x2fu8] + part_bytes(parts.last())
    }
}

/// The views of an optional list of components.
pub open spec fn opt_part_views(parts: Option<Vec<Component>>) -> Option<Seq<PathPart>> {
    match parts {
        Some(p) => Some(part_views(p@)),
        None => None,
    }
}

/// `Path::strip_prefix`, component by component.
pub fn strip_prefix(parts: &Vec<Component>, base: &Vec<Component>) -> (rest: Option<Vec<Component>>)
    ensures
        opt_part_views(rest) == strip_parts(part_views(parts@), part_views(base@)),
{
    let ghost pv = part_views(parts@);
    let ghost bv = part_views(base@);
    if base.len() > parts.len() {
        return None;
    }
    let mut i: usize = 0;
    while i < base.len()
        invariant
            base@.len() <= parts@.len(),
            i <= base@.len(),
            pv == part_views(parts@),
            bv == part_views(base@),
            forall|j: int| 0 <= j < i ==> pv[j] == bv[j],
        decreases base@.len() - i,
    {
        if !same_component(&parts[i], &base[i]) {
            assert(pv.take(bv.len() as int)[i as int] != bv[i as int]);
            return None;
        }
        i += 1;
    }
    assert(pv.take(bv.len() as int) =~= bv);
    let mut rest: Vec<Component> = Vec::new();
    let mut k = base.len();
    while k < parts.len()
        invariant
            base@.len() <= k <= parts@.len(),
            pv == part_views(parts@),
            part_views(rest@) =~= pv.subrange(base@.len() as int, k as int),
        decreases parts@.len() - k,
    {
        let copy = copy_component(&parts[k]);
        let ghost before = part_views(rest@);
        rest.push(copy);
        assert(part_views(rest@) =~= before.push(copy@));
        k += 1;
    }
    Some(rest)
}

/// A copy of a component.
fn copy_component(c: &Component) -> (copy: Component)
    ensures
        copy@ == c@,
{
    match c {
        Component::RootDir => Component::RootDir,
        Component::CurDir => Component::CurDir,
        Component::ParentDir => Component::ParentDir,
        Component::Normal(name) => {
            let bytes = copy_range(name.as_slice(), 0, name.len());
            assert(bytes@ =~= name@);
            Component::Normal(bytes)
        },
    }
}

/// The text of one component.
fn component_bytes(c: &Component) -> (bytes: Vec<u8>)
    ensures
        bytes@ == part_bytes(c@),
{
    match c {
        Component::RootDir => Vec::new(),
        Component::CurDir => {
            let mut v = Vec::new();
            v.push(0x2eu8);
            assert(v@ =~= seq![0x2eu8]);
            v
        },
        Component::ParentDir => {
            let mut v = Vec::new();
            v.push(0x2eu8);
            v.push(0x2eu8);
            assert(v@ =~= seq![0x2eu8, 0x2eu8]);
            v
        },
        Component::Normal(name) => {
            let bytes = copy_range(name.as_slice(), 0, name.len());
            assert(bytes@ =~= name@);
            bytes
        },
    }
}

/// Components written back as a path, with `/` between them.
pub fn join_components(parts: &Vec<Component>) -> (path: Vec<u8>)
    ensures
        path@ == join_parts(part_views(parts@)),
{
    let ghost pv = part_views(parts@);
    let mut path: Vec<u8> = Vec::new();
    let mut i: usize = 0;
    while i < parts.len()
        invariant
            i <= parts@.len(),
            pv == part_views(parts@),
            path@ == join_parts(pv.take(i as int)),
        decreases parts@.len() - i,
    {
        if i > 0 {
            path.push(0x2fu8);
        }
        let mut piece = component_bytes(&parts[i]);
        let ghost before = path@;
        path.append(&mut piece);
        proof {
            let t = pv.take(i + 1);
            assert(t.drop_last() =~= pv.take(i as int));
            assert(t.last() == pv[i as int]);
            if i == 0 {
                assert(path@ =~= part_bytes(t[0]));
            } else {
                assert(path@ =~= join_parts(pv.take(i as int)) + seq![0x2fu8] + part_bytes(t.last()));
            }
        }
        i += 1;
    }
    assert(pv.take(parts@.len() as int) =~= pv);
    path
}

} // verus!
