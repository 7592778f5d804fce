//! File paths as lists of components, and their normal form.

use vstd::prelude::*;

verus! {

/// One component of a path, as plain text.
pub enum Part {
    /// A drive or share in front of the path.
    Prefix(Seq<char>),
    /// The root directory.
    RootDir,
    /// The directory itself: `.`
    CurDir,
    /// The directory above: `..`
    ParentDir,
    /// A file or directory name.
    Normal(Seq<char>),
}

/// One component of a path.
#[derive(Debug, Clone, PartialEq, Eq)]
pub enum PathPart {
    /// A drive or share in front of the path.
    Prefix(String),
    /// The root directory.
    RootDir,
    /// The directory itself: `.`
    CurDir,
    /// The directory above: `..`
    ParentDir,
    /// A file or directory name.
    Normal(String),
}

impl View for PathPart {
    type V = Part;

    open spec fn view(&self) -> Part {
        match self {
            PathPart::Prefix(text) => Part::Prefix(text@),
            PathPart::RootDir => Part::RootDir,
            PathPart::CurDir => Part::CurDir,
            PathPart::ParentDir => Part::ParentDir,
            PathPart::Normal(name) => Part::Normal(name@),
        }
    }
}

impl PathPart {
    /// A copy of the component.
    pub fn copy(&self) -> (r: PathPart)
        ensures
            r@ == self@,
    {
        match self {
            PathPart::Prefix(text) => PathPart::Prefix(text.clone()),
            PathPart::RootDir => PathPart::RootDir,
            PathPart::CurDir => PathPart::CurDir,
            PathPart::ParentDir => PathPart::ParentDir,
            PathPart::Normal(name) => PathPart::Normal(name.clone()),
        }
    }
}

/// The components of a list, as plain text.
pub open spec fn parts_of(list: Seq<PathPart>) -> Seq<Part> {
    Seq::new(list.len(), |i: int| list[i]@)
}

/// The normal form `done` of the components read so far, after `part` was
/// read too. A prefix starts the path anew. A root directory starts it anew
/// behind the prefix, if there is one. `.` changes nothing. `..` takes the
/// last name away, and changes nothing where no name is left. A name is
/// added.
pub open spec fn normal_step(done: Seq<Part>, part: Part) -> Seq<Part> {
    match part {
        Part::Prefix(_) => seq![part],
        Part::RootDir => if done.len() > 0 && done[0] is Prefix {
            seq![done[0], Part::RootDir]
        } else {
            seq![Part::RootDir]
        },
        Part::CurDir => done,
        Part::ParentDir => if done.len() > 0 && done.last() is Normal {
            done.drop_last()
        } else {
            done
        },
        Part::Normal(_) => done.push(part),
    }
}

/// The normal form of a path: its components read first to last, each as
/// `normal_step` says.
pub open spec fn normalized(parts: Seq<Part>) -> Seq<Part>
    decreases parts.len(),
{
    if parts.len() == 0 {
        Seq::empty()
    } else {
        normal_step(normalized(parts.drop_last()), parts.last())
    }
}

/// Brings a path into its normal form without looking at the file system:
/// `.` is dropped, and `..` takes back the name before it.
pub fn normalize_path(parts: &Vec<PathPart>) -> (kept: Vec<PathPart>)
    ensures
        parts_of(kept@) == normalized(parts_of(parts@)),
{
    let mut kept: Vec<PathPart> = Vec::new();
    let mut i: usize = 0;
    proof {
        assert(parts_of(parts@).take(0) =~= Seq::<Part>::empty());
        assert(parts_of(kept@) =~= Seq::<Part>::empty());
    }
    while i < parts.len()
        invariant
            i <= parts.len(),
            parts_of(kept@) == normalized(parts_of(parts@).take(i as int)),
        decreases parts.len() - i,
    {
        let ghost done = parts_of(kept@);
        let ghost prior = kept@;
        proof {
            assert(parts_of(parts@).take(i + 1).drop_last() =~= parts_of(parts@).take(i as int));
            assert(parts_of(parts@).take(i + 1).last() == parts@[i as int]@);
        }
        match &parts[i] {
            PathPart::Prefix(_) => {
                kept.clear();
                kept.push(parts[i].copy());
                proof {
                    assert(parts_of(kept@) =~= seq![parts@[i as int]@]);
                }
            },
            PathPart::RootDir => {
                let after_prefix = kept.len() > 0 && is_prefix(&kept[0]);
                if after_prefix {
                    kept.truncate(1);
                } else {
                    kept.clear();
                }
                kept.push(PathPart::RootDir);
                proof {
                    if after_prefix {
                        assert(done[0] == prior[0]@);
                        assert(parts_of(kept@) =~= seq![done[0], Part::RootDir]);
                    } else {
                        assert(done.len() > 0 ==> done[0] == prior[0]@);
                        assert(parts_of(kept@) =~= seq![Part::RootDir]);
                    }
                }
            },
            PathPart::CurDir => {},
            PathPart::ParentDir => {
                let after_name = kept.len() > 0 && is_normal(&kept[kept.len() - 1]);
                proof {
                    assert(done.len() > 0 ==> done.last() == prior[prior.len() - 1]@);
                }
                if after_name {
                    kept.pop();
                    proof {
                        assert(parts_of(kept@) =~= done.drop_last());
                    }
                }
            },
            PathPart::Normal(_) => {
                kept.push(parts[i].copy());
                proof {
                    assert(parts_of(kept@) =~= done.push(parts@[i as int]@));
                }
            },
        }
        i += 1;
    }
    proof {
        assert(parts_of(parts@).take(i as int) =~= parts_of(parts@));
    }
    kept
}

/// Whether the component is a prefix.
fn is_prefix(part: &PathPart) -> (b: bool)
    ensures
        b == (part@ is Prefix),
{
    match part {
        PathPart::Prefix(_) => true,
        _ => false,
    }
}

/// Whether the component is a name.
fn is_normal(part: &PathPart) -> (b: bool)
    ensures
        b == (part@ is Normal),
{
    match part {
        PathPart::Normal(_) => true,
        _ => false,
    }
}

/// A copy of the components.
pub fn copy_parts(parts: &Vec<PathPart>) -> (copy: Vec<PathPart>)
    ensures
        parts_of(copy@) == parts_of(parts@),
{
    let mut copy: Vec<PathPart> = Vec::new();
    let mut i: usize = 0;
    while i < parts.len()
        invariant
            i <= parts.len(),
            copy@.len() == i,
            forall|j: int| 0 <= j < i ==> (#[trigger] copy@[j])@ == parts@[j]@,
        decreases parts.len() - i,
    {
        copy.push(parts[i].copy());
        i += 1;
    }
    proof {
        assert(parts_of(copy@) =~= parts_of(parts@));
    }
    copy
}

} // verus!
