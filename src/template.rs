//! Putting the staged file's path into a command template.
use vstd::prelude::*;
use vstd::string::{StrSliceExecFns, StringExecFns};

verus! {

/// Whether `t` holds a placeholder `{}` at position `j`.
pub open spec fn placeholder_at(t: Seq<char>, j: int) -> bool {
    0 <= j && j + 1 < t.len() && t[j] == '{' && t[j + 1] == '}'
}

/// Whether `t` holds a placeholder `{}` anywhere.
pub open spec fn has_placeholder(t: Seq<char>) -> bool {
    exists|j: int| #[trigger] placeholder_at(t, j)
}

/// `t` with every placeholder, read from left to right, replaced by `p`.
pub open spec fn replace_placeholders(t: Seq<char>, p: Seq<char>) -> Seq<char>
    decreases t.len(),
{
    if t.len() == 0 {
        t
    } else if placeholder_at(t, 0) {
        p + replace_placeholders(t.skip(2), p)
    } else {
        seq![t[0]] + replace_placeholders(t.skip(1), p)
    }
}

/// The command for a template and a path: the placeholders replaced by the
/// path where there are any, else the path appended after a space.
pub open spec fn command_with_path(t: Seq<char>, p: Seq<char>) -> Seq<char> {
    if has_placeholder(t) {
        replace_placeholders(t, p)
    } else {
        t + seq![' '] + p
    }
}

/// Builds the command that runs `template` on the file at `path`.
pub fn command_for(template: &str, path: &str) -> (r: String)
    ensures
        r@ == command_with_path(template@, path@),
{
    let ghost t = template@;
    let n = template.unicode_len();
    let mut res = String::new();
    let mut start: usize = 0;
    let mut i: usize = 0;
    let mut found = false;
    assert(res@ =~= Seq::<char>::empty());
    assert(t.skip(0) =~= t);
    assert(res@ + t.subrange(0, 0) + replace_placeholders(t.skip(0), path@) =~= replace_placeholders(
        t,
        path@,
    ));
    while i < n
        invariant
            n == t.len(),
            t == template@,
            start <= i <= n,
            res@ + t.subrange(start as int, i as int) + replace_placeholders(t.skip(i as int), path@)
                == replace_placeholders(t, path@),
            found <==> exists|j: int| 0 <= j < i && #[trigger] placeholder_at(t, j),
        decreases n - i,
    {
        let ghost rest = t.skip(i as int);
        if i + 1 < n && template.get_char(i) == '{' && template.get_char(i + 1) == '}' {
            assert(placeholder_at(rest, 0));
            assert(placeholder_at(t, i as int));
            assert(!placeholder_at(t, i + 1));
            assert(rest.skip(2) =~= t.skip(i + 2));
            res.append(template.substring_char(start, i));
            res.append(path);
            found = true;
            i = i + 2;
            start = i;
            assert(t.subrange(start as int, i as int) =~= Seq::<char>::empty());
            assert(exists|j: int| 0 <= j < i && #[trigger] placeholder_at(t, j));
        } else {
            assert(!placeholder_at(rest, 0));
            assert(rest.skip(1) =~= t.skip(i + 1));
            assert(t.subrange(start as int, i + 1) =~= t.subrange(start as int, i as int).push(
                t[i as int],
            ));
            i = i + 1;
        }
    }
    assert(t.skip(n as int) =~= Seq::<char>::empty());
    if found {
        res.append(template.substring_char(start, n));
        proof {
            assert(has_placeholder(t));
        }
        res
    } else {
        let mut plain = String::from_str(template);
        proof {
            reveal_strlit(" ");
            if has_placeholder(t) {
                let j = choose|j: int| #[trigger] placeholder_at(t, j);
                assert(0 <= j < i);
            }
        }
        plain.append(" ");
        plain.append(path);
        plain
    }
}

} // verus!
