use vstd::prelude::*;

use crate::text::{chars_of, eq_chars, push_chars, slice_of, to_string};

verus! {

/// Index of the last `c` before position `j`, or -1.
pub open spec fn last_before(s: Seq<char>, c: char, j: int) -> int
    decreases j,
{
    if j <= 0 || j > s.len() {
        -1
    } else if s[j - 1] == c {
        j - 1
    } else {
        last_before(s, c, j - 1)
    }
}

pub proof fn lemma_last_before_bounds(s: Seq<char>, c: char, j: int)
    requires
        0 <= j <= s.len(),
    ensures
        -1 <= last_before(s, c, j) < j,
    decreases j,
{
    if j > 0 && s[j - 1] != c {
        lemma_last_before_bounds(s, c, j - 1);
    }
}

/// The file name of a path: what follows its last `/`.
pub open spec fn file_name_of(p: Seq<char>) -> Seq<char> {
    p.subrange(last_before(p, '/', p.len() as int) + 1, p.len() as int)
}

/// A file name without its extension; a name whose only dot leads it has none.
pub open spec fn file_stem_of(name: Seq<char>) -> Seq<char> {
    let d = last_before(name, '.', name.len() as int);
    if d <= 0 {
        name
    } else {
        name.subrange(0, d)
    }
}

/// `p` with the extension of its file name replaced by `.mdf.json` (added if it
/// has none); unchanged when it names no file (empty, `.`, `..`, or ending in `/`).
pub open spec fn output_path_of(p: Seq<char>) -> Seq<char> {
    let cut = last_before(p, '/', p.len() as int) + 1;
    let name = file_name_of(p);
    if name.len() == 0 || name == "."@ || name == ".."@ {
        p
    } else {
        p.subrange(0, cut) + file_stem_of(name) + ".mdf.json"@
    }
}

fn last_index(v: &Vec<char>, c: char) -> (r: i64)
    requires
        v.len() < 0x7FFF_FFFF_FFFF_FFFF,
    ensures
        r == last_before(v@, c, v@.len() as int),
{
    let mut j: usize = v.len();
    while j > 0 && v[j - 1] != c
        invariant
            j <= v.len(),
            last_before(v@, c, j as int) == last_before(v@, c, v@.len() as int),
        decreases j,
    {
        j = j - 1;
    }
    if j == 0 {
        -1
    } else {
        (j - 1) as i64
    }
}

/// The default output path of the `compile` command for input `input`.
pub fn default_output_path(input: &str) -> (r: String)
    requires
        input@.len() < 0x7FFF_FFFF_FFFF_FFFF,
    ensures
        r@ == output_path_of(input@),
{
    let p = chars_of(input);
    let slash = last_index(&p, '/');
    proof {
        lemma_last_before_bounds(p@, '/', p@.len() as int);
    }
    let cut = (slash + 1) as usize;
    let name = slice_of(&p, cut, p.len());
    if name.len() == 0 || eq_chars(&name, &chars_of(".")) || eq_chars(&name, &chars_of("..")) {
        return to_string(&p);
    }
    let dot = last_index(&name, '.');
    proof {
        lemma_last_before_bounds(name@, '.', name@.len() as int);
    }
    let stem = if dot <= 0 {
        slice_of(&name, 0, name.len())
    } else {
        slice_of(&name, 0, dot as usize)
    };
    assert(stem@ =~= file_stem_of(name@));
    let mut out = to_string(&slice_of(&p, 0, cut));
    push_chars(&mut out, &stem);
    out.append(".mdf.json");
    out
}

} // verus!
