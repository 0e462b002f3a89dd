//! Paths, as texts with slashes in them.
use vstd::prelude::*;
use vstd::string::*;

use crate::text;

verus! {

/// `name`, below the directory `dir`.
pub open spec fn joined(dir: Seq<char>, name: Seq<char>) -> Seq<char> {
    if dir.len() == 0 || dir.last() == '/' {
        dir + name
    } else {
        dir + "/"@ + name
    }
}

/// A directory without slashes and without `/.` at its end.
pub open spec fn tidy(dir: Seq<char>) -> Seq<char>
    decreases dir.len(),
{
    if dir.len() > 1 && (dir.last() == '/' || (dir.last() == '.' && dir[dir.len() - 2] == '/')) {
        tidy(dir.drop_last())
    } else {
        dir
    }
}

/// What stands in front of the last slash of a file's path, tidied; empty when
/// there is none.
pub open spec fn parent(file: Seq<char>) -> Seq<char> {
    match text::last_index(file, '/') {
        Some(i) => tidy(file.take(i + 1)),
        None => Seq::empty(),
    }
}

/// The names that a path leads through: its pieces between slashes, without
/// those that lead nowhere. Only at the very start does a `.` count.
pub open spec fn steps(pieces: Seq<Seq<char>>) -> Seq<Seq<char>>
    decreases pieces.len(),
{
    if pieces.len() == 0 {
        Seq::empty()
    } else {
        let before = steps(pieces.drop_last());
        let last = pieces.last();
        if last.len() == 0 || (last == "."@ && pieces.len() > 1) {
            before
        } else {
            before.push(last)
        }
    }
}

/// Two paths name the same place: both start at the root or neither does, and
/// they lead through the same names.
pub open spec fn alike(a: Seq<char>, b: Seq<char>) -> bool {
    &&& text::has_prefix(a, "/"@) == text::has_prefix(b, "/"@)
    &&& steps(text::pieces(a, '/')) == steps(text::pieces(b, '/'))
}

/// A file that was named below a directory is in that directory.
pub proof fn a_file_is_where_it_was_put(dir: Seq<char>, name: Seq<char>)
    requires
        forall|i: int| 0 <= i < name.len() ==> name[i] != '/',
    ensures
        parent(joined(dir, name)) == tidy(dir),
{
    reveal_strlit("/");
    let file = joined(dir, name);
    if dir.len() == 0 {
        text::lemma_last_index(file, '/');
        assert(tidy(dir) =~= Seq::empty());
    } else {
        let start = if dir.last() == '/' {
            dir.drop_last()
        } else {
            dir
        };
        assert(file =~= start + seq!['/'] + name);
        text::lemma_cut_last(start, '/', name);
        text::lemma_last_index(file, '/');
        let i = text::last_index(file, '/')->0;
        assert(file.take(i) =~= start);
        assert(i == start.len());
        if dir.last() == '/' {
            assert(file.take(i + 1) =~= dir);
        } else {
            assert(file.take(i + 1) =~= dir.push('/'));
            assert(dir.push('/').drop_last() =~= dir);
        }
    }
}

/// `name`, below the directory `dir`.
pub fn join(dir: &str, name: &str) -> (r: String)
    ensures
        r@ == joined(dir@, name@),
{
    let n = dir.unicode_len();
    let mut out: String = dir.to_owned();
    if n > 0 && dir.get_char(n - 1) != '/' {
        out.append("/");
    }
    out.append(name);
    out
}

/// The directory that a file is in.
pub fn parent_of(file: &str) -> (r: &str)
    ensures
        r@ == parent(file@),
{
    let v = text::chars(file);
    let mut end: usize = v.len();
    while end > 0 && v[end - 1] != '/'
        invariant
            end <= v@.len(),
            v@ == file@,
            forall|j: int| end <= j < v@.len() ==> file@[j] != '/',
        decreases end,
    {
        end = end - 1;
    }
    proof {
        text::lemma_last_index(file@, '/');
    }
    if end == 0 {
        let r = file.substring_char(0, 0);
        assert(r@ =~= Seq::empty());
        return r;
    }
    assert(text::last_index(file@, '/') == Some(end - 1));
    let ghost dir = file@.take(end as int);
    while end > 1 && (v[end - 1] == '/' || (v[end - 1] == '.' && v[end - 2] == '/'))
        invariant
            end <= v@.len(),
            v@ == file@,
            tidy(dir) == tidy(file@.take(end as int)),
        decreases end,
    {
        assert(file@.take(end as int).drop_last() =~= file@.take(end - 1));
        end = end - 1;
    }
    assert(file@.take(end as int) =~= file@.subrange(0, end as int));
    file.substring_char(0, end)
}

/// The names that a path leads through.
fn names(path: &str) -> (r: Vec<String>)
    ensures
        text::texts(r@) == steps(text::pieces(path@, '/')),
{
    let parts = text::split(path, '/');
    let ghost all = text::texts(parts@);
    let mut out: Vec<String> = Vec::new();
    let mut i: usize = 0;
    assert(text::texts(out@) =~= steps(all.take(0)));
    while i < parts.len()
        invariant
            i <= parts@.len(),
            all == text::texts(parts@),
            text::texts(out@) == steps(all.take(i as int)),
        decreases parts@.len() - i,
    {
        let ghost next = all.take(i + 1);
        let ghost before = out@;
        assert(next.drop_last() =~= all.take(i as int));
        assert(next.last() == parts@[i as int]@);
        let part: &str = parts[i].as_str();
        let empty = part.unicode_len() == 0;
        let here = i > 0 && text::same(part, ".");
        if !empty && !here {
            out.push(part.to_owned());
            assert(text::texts(out@) =~= text::texts(before).push(part@));
        }
        i = i + 1;
    }
    assert(all.take(i as int) =~= all);
    out
}

/// Whether two paths name the same place.
pub fn same_place(a: &str, b: &str) -> (r: bool)
    ensures
        r == alike(a@, b@),
{
    if text::starts_with(a, "/") != text::starts_with(b, "/") {
        return false;
    }
    let x = names(a);
    let y = names(b);
    if x.len() != y.len() {
        assert(text::texts(x@).len() != text::texts(y@).len());
        return false;
    }
    let mut i: usize = 0;
    while i < x.len()
        invariant
            i <= x@.len(),
            x@.len() == y@.len(),
            text::texts(x@) == steps(text::pieces(a@, '/')),
            text::texts(y@) == steps(text::pieces(b@, '/')),
            forall|j: int| 0 <= j < i ==> x@[j]@ == y@[j]@,
        decreases x@.len() - i,
    {
        if !text::same(x[i].as_str(), y[i].as_str()) {
            assert(text::texts(x@)[i as int] != text::texts(y@)[i as int]);
            return false;
        }
        i = i + 1;
    }
    assert(text::texts(x@) =~= text::texts(y@));
    true
}

/// A name between slashes that leads somewhere.
pub open spec fn name_in_path(s: Seq<char>) -> bool {
    &&& s.len() > 0
    &&& s != "."@
    &&& forall|i: int| 0 <= i < s.len() ==> s[i] != '/'
}

proof fn lemma_steps_below(dir: Seq<char>, name: Seq<char>)
    requires
        name_in_path(name),
    ensures
        steps(text::pieces(dir + seq!['/'] + name, '/')) == steps(text::pieces(dir, '/')).push(
            name,
        ),
{
    text::lemma_pieces_apart(dir, '/', name);
    text::lemma_first_index(name, '/');
    let before = text::pieces(dir, '/');
    let all = text::pieces(dir + seq!['/'] + name, '/');
    assert(text::pieces(name, '/') == seq![name]);
    assert(all =~= before.push(name));
    assert(all.drop_last() =~= before);
}

/// Two names in one directory are the same place only when they are the same
/// name.
pub proof fn two_names_are_two_places(dir: Seq<char>, a: Seq<char>, b: Seq<char>)
    requires
        name_in_path(a),
        name_in_path(b),
    ensures
        alike(dir + seq!['/'] + a, dir + seq!['/'] + b) <==> a == b,
{
    lemma_steps_below(dir, a);
    lemma_steps_below(dir, b);
    let before = steps(text::pieces(dir, '/'));
    assert(before.push(a).last() == a);
    assert(before.push(b).last() == b);
    reveal_strlit("/");
    let (x, y) = (dir + seq!['/'] + a, dir + seq!['/'] + b);
    assert(x[0] == y[0]);
    assert(x.take(1) =~= y.take(1));
}

/// One name in two directories is the same place only when the directories are.
pub proof fn a_name_in_two_places_is_two_places(a: Seq<char>, b: Seq<char>, name: Seq<char>)
    requires
        name_in_path(name),
        a.len() > 0,
        b.len() > 0,
    ensures
        alike(a + seq!['/'] + name, b + seq!['/'] + name) <==> alike(a, b),
{
    lemma_steps_below(a, name);
    lemma_steps_below(b, name);
    let (x, y) = (steps(text::pieces(a, '/')), steps(text::pieces(b, '/')));
    assert(x.push(name).drop_last() =~= x);
    assert(y.push(name).drop_last() =~= y);
    reveal_strlit("/");
    assert((a + seq!['/'] + name).take(1) =~= a.take(1));
    assert((b + seq!['/'] + name).take(1) =~= b.take(1));
}

/// A slash behind a path leads to the same place.
pub proof fn a_slash_behind_a_path_leads_nowhere_else(dir: Seq<char>)
    requires
        dir.len() > 0,
    ensures
        alike(dir + seq!['/'], dir),
        alike(dir, dir),
{
    let nothing = Seq::<char>::empty();
    assert(dir + seq!['/'] + nothing =~= dir + seq!['/']);
    text::lemma_pieces_apart(dir, '/', nothing);
    text::lemma_first_index(nothing, '/');
    let before = text::pieces(dir, '/');
    assert(before + seq![nothing] =~= before.push(nothing));
    assert(before.push(nothing).drop_last() =~= before);
    reveal_strlit("/");
    assert((dir + seq!['/']).take(1) =~= dir.take(1));
}

/// Two paths that name the place of a third name the same place, whichever is
/// asked about first.
pub proof fn a_place_is_a_place(a: Seq<char>, b: Seq<char>, c: Seq<char>)
    requires
        alike(a, b),
        alike(c, b),
    ensures
        alike(a, c),
        alike(c, a),
{
}

proof fn lemma_steps_here(dir: Seq<char>, here: Seq<char>)
    requires
        here.len() == 0 || here == "."@,
    ensures
        steps(text::pieces(dir + seq!['/'] + here, '/')) == steps(text::pieces(dir, '/')),
        text::pieces(dir, '/').len() > 0,
{
    reveal_strlit(".");
    text::lemma_pieces_apart(dir, '/', here);
    text::lemma_first_index(here, '/');
    let before = text::pieces(dir, '/');
    let all = text::pieces(dir + seq!['/'] + here, '/');
    assert(text::pieces(here, '/') =~= seq![here]);
    assert(all =~= before.push(here));
    assert(all.drop_last() =~= before);
    text::lemma_first_index(dir, '/');
}

/// A dot between slashes leads nowhere, and neither do two slashes in a row: the
/// path goes on from where it was.
pub proof fn a_dot_leads_nowhere(dir: Seq<char>, name: Seq<char>)
    requires
        dir.len() > 0,
        name_in_path(name),
    ensures
        alike(dir + seq!['/'] + "."@, dir),
        alike(dir + seq!['/'] + "."@ + seq!['/'] + name, dir + seq!['/'] + name),
        alike(dir + seq!['/'] + seq!['/'] + name, dir + seq!['/'] + name),
{
    reveal_strlit("/");
    reveal_strlit(".");
    let nothing = Seq::<char>::empty();
    let dotted = dir + seq!['/'] + "."@;
    let slashed = dir + seq!['/'];
    assert(slashed + nothing =~= slashed);
    lemma_steps_here(dir, "."@);
    lemma_steps_here(dir, nothing);
    lemma_steps_below(dotted, name);
    lemma_steps_below(slashed, name);
    lemma_steps_below(dir, name);
    assert(dotted.take(1) =~= dir.take(1));
    assert((dotted + seq!['/'] + name).take(1) =~= dir.take(1));
    assert((slashed + seq!['/'] + name).take(1) =~= dir.take(1));
    assert((dir + seq!['/'] + name).take(1) =~= dir.take(1));
}

/// A path from the root is another place than one that starts where somebody
/// is.
pub proof fn the_root_is_not_here(a: &str, b: &str, r: bool)
    requires
        call_ensures(same_place, (a, b), r),
        a@.len() > 0,
        b@.len() > 0,
        a@[0] == '/',
        b@[0] != '/',
    ensures
        !r,
{
    reveal_strlit("/");
    assert(a@.take(1) =~= "/"@);
    assert(b@.take(1)[0] == b@[0]);
    assert("/"@[0] == '/');
}

} // verus!
