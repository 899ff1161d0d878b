//! Map paths compared the way the editor keys its per-map state: component by component.
use vstd::prelude::*;

use crate::text::{
    lemma_text_less_irreflexive,
    lemma_text_less_total,
    lemma_text_less_transitive,
    str_equal,
    str_less,
    text_less,
};

verus! {

/// One component of a path, as `std::path::Component` has them: a platform prefix, the root, a
/// `.`, a `..`, or a name.
#[derive(Debug)]
pub enum PathPart {
    Prefix(String),
    RootDir,
    CurDir,
    ParentDir,
    Normal(String),
}

/// A component as a plain value: its kind, ranked in the order the kinds are declared, and its
/// text (empty for the root, `.` and `..`).
pub open spec fn part_key(part: PathPart) -> (u8, Seq<char>) {
    match part {
        PathPart::Prefix(text) => (0, text@),
        PathPart::RootDir => (1, seq![]),
        PathPart::CurDir => (2, seq![]),
        PathPart::ParentDir => (3, seq![]),
        PathPart::Normal(text) => (4, text@),
    }
}

pub open spec fn parts_key(parts: Seq<PathPart>) -> Seq<(u8, Seq<char>)> {
    parts.map_values(|part: PathPart| part_key(part))
}

/// Names the components `std::path::Path::components` gives for a path, each as `part_key`
/// shows it.
pub uninterp spec fn path_parts(path: Seq<char>) -> Seq<(u8, Seq<char>)>;

/// Calls `std::path::Path::components` on `path` and converts each component. The result is
/// named `path_parts`; how a path is split (repeated separators and inner `.` left out) is the
/// standard library's rule for the build's target, which is not restated.
#[verifier::external_body]
pub fn path_parts_of(path: &str) -> (parts: Vec<PathPart>)
    ensures
        parts_key(parts@) == path_parts(path@),
{
    let mut parts = Vec::new();
    for component in std::path::Path::new(path).components() {
        parts.push(match component {
            std::path::Component::Prefix(prefix) => PathPart::Prefix(prefix.as_os_str().to_string_lossy().into_owned()),
            std::path::Component::RootDir => PathPart::RootDir,
            std::path::Component::CurDir => PathPart::CurDir,
            std::path::Component::ParentDir => PathPart::ParentDir,
            std::path::Component::Normal(name) => PathPart::Normal(name.to_string_lossy().into_owned()),
        });
    }
    parts
}

/// Component order: by kind first, then by text.
pub open spec fn part_less(a: (u8, Seq<char>), b: (u8, Seq<char>)) -> bool {
    a.0 < b.0 || (a.0 == b.0 && text_less(a.1, b.1))
}

/// Path order: the first component that differs decides, and a path comes before the longer
/// paths it begins.
pub open spec fn key_less(a: Seq<(u8, Seq<char>)>, b: Seq<(u8, Seq<char>)>) -> bool
    decreases a.len(),
{
    if a.len() == 0 {
        b.len() > 0
    } else if b.len() == 0 {
        false
    } else if a[0] != b[0] {
        part_less(a[0], b[0])
    } else {
        key_less(a.drop_first(), b.drop_first())
    }
}

/// Path order is transitive.
pub proof fn lemma_key_less_transitive(a: Seq<(u8, Seq<char>)>, b: Seq<(u8, Seq<char>)>, c: Seq<(u8, Seq<char>)>)
    requires
        key_less(a, b),
        key_less(b, c),
    ensures
        key_less(a, c),
    decreases a.len(),
{
    if a.len() > 0 && b.len() > 0 && c.len() > 0 {
        if a[0] == b[0] && b[0] == c[0] {
            lemma_key_less_transitive(a.drop_first(), b.drop_first(), c.drop_first());
        } else if a[0] != b[0] && b[0] != c[0] {
            if a[0].0 == b[0].0 && b[0].0 == c[0].0 {
                lemma_text_less_transitive(a[0].1, b[0].1, c[0].1);
            }
            if a[0] == c[0] {
                lemma_text_less_total(a[0].1, b[0].1);
            }
        }
    }
}

/// No path comes before itself.
pub proof fn lemma_key_less_irreflexive(a: Seq<(u8, Seq<char>)>)
    ensures
        !key_less(a, a),
    decreases a.len(),
{
    if a.len() > 0 {
        lemma_key_less_irreflexive(a.drop_first());
    }
}

/// Of two different paths exactly one comes first.
pub proof fn lemma_key_less_total(a: Seq<(u8, Seq<char>)>, b: Seq<(u8, Seq<char>)>)
    ensures
        a == b || key_less(a, b) || key_less(b, a),
        !(key_less(a, b) && key_less(b, a)),
    decreases a.len(),
{
    if a.len() > 0 && b.len() > 0 {
        lemma_key_less_total(a.drop_first(), b.drop_first());
        if a[0] != b[0] {
            lemma_text_less_total(a[0].1, b[0].1);
            if a[0].0 == b[0].0 && a[0].1 == b[0].1 {
                assert(a[0] == b[0]);
            }
        } else if a.drop_first() == b.drop_first() {
            assert(a =~= b) by {
                assert forall|k: int| 0 <= k < a.len() implies a[k] == b[k] by {
                    if k > 0 {
                        assert(a[k] == a.drop_first()[k - 1]);
                        assert(b[k] == b.drop_first()[k - 1]);
                    }
                }
            }
        }
    } else if a.len() == 0 && b.len() == 0 {
        assert(a =~= b);
    }
}

fn part_rank(part: &PathPart) -> (rank: u8)
    ensures
        rank == part_key(*part).0,
{
    match part {
        PathPart::Prefix(_) => 0,
        PathPart::RootDir => 1,
        PathPart::CurDir => 2,
        PathPart::ParentDir => 3,
        PathPart::Normal(_) => 4,
    }
}

fn part_text(part: &PathPart) -> (text: &str)
    ensures
        text@ == part_key(*part).1,
{
    match part {
        PathPart::Prefix(text) => text.as_str(),
        PathPart::Normal(text) => text.as_str(),
        _ => {
            proof {
                reveal_strlit("");
            }
            ""
        },
    }
}

/// Whether two paths, given by their components, are the same path, component by component.
pub fn parts_equal(a: &Vec<PathPart>, b: &Vec<PathPart>) -> (same: bool)
    ensures
        same == (parts_key(a@) == parts_key(b@)),
{
    if a.len() != b.len() {
        proof {
            if parts_key(a@) == parts_key(b@) {
                assert(parts_key(a@).len() == parts_key(b@).len());
            }
        }
        return false;
    }
    let mut i: usize = 0;
    while i < a.len()
        invariant
            a@.len() == b@.len(),
            i <= a@.len(),
            forall|k: int| 0 <= k < i ==> part_key(#[trigger] a@[k]) == part_key(b@[k]),
        decreases a.len() - i,
    {
        if part_rank(&a[i]) != part_rank(&b[i]) || !str_equal(part_text(&a[i]), part_text(&b[i])) {
            proof {
                assert(parts_key(a@)[i as int] != parts_key(b@)[i as int]);
            }
            return false;
        }
        i = i + 1;
    }
    proof {
        assert(parts_key(a@) =~= parts_key(b@)) by {
            assert forall|k: int| 0 <= k < a@.len() implies parts_key(a@)[k] == parts_key(b@)[k] by {
                assert(part_key(a@[k]) == part_key(b@[k]));
            }
        }
    }
    true
}

/// Whether the path `a` comes before the path `b`, both given by their components.
pub fn parts_less(a: &Vec<PathPart>, b: &Vec<PathPart>) -> (less: bool)
    ensures
        less == key_less(parts_key(a@), parts_key(b@)),
{
    let ghost ka = parts_key(a@);
    let ghost kb = parts_key(b@);
    proof {
        assert(ka.skip(0) =~= ka);
        assert(kb.skip(0) =~= kb);
    }
    let mut i: usize = 0;
    while i < a.len() && i < b.len()
        invariant
            ka == parts_key(a@),
            kb == parts_key(b@),
            i <= a@.len(),
            i <= b@.len(),
            key_less(ka, kb) == key_less(ka.skip(i as int), kb.skip(i as int)),
        decreases a.len() - i,
    {
        proof {
            assert(ka.skip(i as int)[0] == part_key(a@[i as int]));
            assert(kb.skip(i as int)[0] == part_key(b@[i as int]));
            assert(ka.skip(i as int).drop_first() =~= ka.skip(i + 1));
            assert(kb.skip(i as int).drop_first() =~= kb.skip(i + 1));
        }
        let ra = part_rank(&a[i]);
        let rb = part_rank(&b[i]);
        let ta = part_text(&a[i]);
        let tb = part_text(&b[i]);
        if ra != rb {
            return ra < rb;
        }
        if !str_equal(ta, tb) {
            return str_less(ta, tb);
        }
        proof {
            assert(ka.skip(i as int)[0] == kb.skip(i as int)[0]);
        }
        i = i + 1;
    }
    proof {
        assert(ka.skip(i as int).len() == a@.len() - i);
        assert(kb.skip(i as int).len() == b@.len() - i);
    }
    i < b.len()
}

} // verus!
