//! Lexical rules on slash-separated paths.

use vstd::prelude::*;

use crate::text;

verus! {

/// One step of a path.
#[derive(Debug, PartialEq, Eq)]
pub enum Component {
    RootDir,
    CurDir,
    ParentDir,
    Normal(String),
}

/// The characters of one step of a path.
#[verifier::ext_equal]
pub enum Step {
    RootDir,
    CurDir,
    ParentDir,
    Normal(Seq<char>),
}

impl View for Component {
    type V = Step;

    open spec fn view(&self) -> Step {
        match *self {
            Component::RootDir => Step::RootDir,
            Component::CurDir => Step::CurDir,
            Component::ParentDir => Step::ParentDir,
            Component::Normal(s) => Step::Normal(s@),
        }
    }
}

/// The characters of a sequence of steps.
pub open spec fn step_views(v: Seq<Component>) -> Seq<Step> {
    v.map_values(|c: Component| c@)
}

/// Whether the path starts at the root.
pub open spec fn absolute(path: Seq<char>) -> bool {
    path.len() > 0 && path[0] == '/'
}

/// The steps that the pieces of a path stand for. Empty pieces stand for
/// nothing, and so does `.` but for the one that a relative path begins with.
pub open spec fn piece_steps(pieces: Seq<Seq<char>>) -> Seq<Step>
    decreases pieces.len(),
{
    if pieces.len() == 0 {
        Seq::empty()
    } else {
        let before = piece_steps(pieces.drop_last());
        let piece = pieces.last();
        if piece.len() == 0 {
            before
        } else if piece == seq!['.'] {
            if pieces.len() == 1 {
                before.push(Step::CurDir)
            } else {
                before
            }
        } else if piece == seq!['.', '.'] {
            before.push(Step::ParentDir)
        } else {
            before.push(Step::Normal(piece))
        }
    }
}

/// The steps of a path.
pub open spec fn path_steps(path: Seq<char>) -> Seq<Step> {
    let steps = piece_steps(text::split_on(path, '/'));
    if absolute(path) {
        seq![Step::RootDir] + steps
    } else {
        steps
    }
}

/// Whether the path starts at the root.
pub fn is_absolute(path: &str) -> (r: bool)
    ensures
        r == absolute(path@),
{
    let v = text::char_vec(path);
    v.len() > 0 && v[0] == '/'
}

/// The steps of a path.
pub fn components(path: &str) -> (r: Vec<Component>)
    ensures
        step_views(r@) == path_steps(path@),
{
    let pieces = text::split(path, '/');
    let mut out: Vec<Component> = Vec::new();
    let rooted = is_absolute(path);
    let ghost head = if rooted {
        seq![Step::RootDir]
    } else {
        Seq::empty()
    };
    if rooted {
        out.push(Component::RootDir);
    }
    let mut i: usize = 0;
    let ghost all = text::split_on(path@, '/');
    assert(all.take(0) =~= Seq::<Seq<char>>::empty());
    assert(step_views(out@) =~= head + piece_steps(all.take(0)));
    while i < pieces.len()
        invariant
            i <= pieces.len(),
            all == text::views(pieces@),
            step_views(out@) == head + piece_steps(all.take(i as int)),
        decreases pieces.len() - i,
    {
        let piece = &pieces[i];
        let ghost before = step_views(out@);
        let ghost old_out = out@;
        proof {
            assert(all.take(i + 1).drop_last() =~= all.take(i as int));
            assert(all.take(i + 1).last() == piece@);
            reveal_strlit(".");
            reveal_strlit("..");
            assert("."@ =~= seq!['.']);
            assert(".."@ =~= seq!['.', '.']);
        }
        if piece.as_str().is_empty() {
        } else if text::str_eq(piece.as_str(), ".") {
            if i == 0 {
                out.push(Component::CurDir);
                assert(step_views(out@) =~= before.push(Step::CurDir));
            }
        } else if text::str_eq(piece.as_str(), "..") {
            out.push(Component::ParentDir);
            assert(step_views(out@) =~= before.push(Step::ParentDir));
        } else {
            out.push(Component::Normal(piece.clone()));
            assert(step_views(out@) =~= before.push(Step::Normal(piece@)));
        }
        assert(step_views(out@) =~= head + piece_steps(all.take(i + 1)));
        i = i + 1;
    }
    assert(all.take(all.len() as int) =~= all);
    if !rooted {
        assert(head + piece_steps(all) =~= piece_steps(all));
    }
    out
}

/// The last step of a path, where it is a name.
pub open spec fn name_of(path: Seq<char>) -> Option<Seq<char>> {
    let steps = path_steps(path);
    if steps.len() > 0 && steps.last() is Normal {
        Some(steps.last()->Normal_0)
    } else {
        None
    }
}

/// The last step of a path, where it is a name.
pub fn file_name(path: &str) -> (r: Option<String>)
    ensures
        text::opt_view(r) == name_of(path@),
{
    let parts = components(path);
    let n: usize = parts.len();
    if n == 0 {
        return None;
    }
    assert(step_views(parts@).last() == parts@[n - 1]@);
    match &parts[n - 1] {
        Component::Normal(s) => Some(s.clone()),
        _ => None,
    }
}

/// Where the last of the characters stands that is the given one, or -1.
pub open spec fn last_index(s: Seq<char>, c: char) -> int
    decreases s.len(),
{
    if s.len() == 0 {
        -1
    } else if s.last() == c {
        s.len() - 1
    } else {
        last_index(s.drop_last(), c)
    }
}

/// The last step of the path without what follows its last dot, but for a dot
/// that it begins with.
pub open spec fn stem_of(path: Seq<char>) -> Option<Seq<char>> {
    match name_of(path) {
        None => None,
        Some(name) => Some(
            if last_index(name, '.') > 0 {
                name.take(last_index(name, '.'))
            } else {
                name
            },
        ),
    }
}

/// The last step of the path without what follows its last dot.
pub fn file_stem(path: &str) -> (r: Option<String>)
    ensures
        text::opt_view(r) == stem_of(path@),
{
    match file_name(path) {
        None => None,
        Some(name) => {
            let cs = text::char_vec(name.as_str());
            let mut i: usize = cs.len();
            assert(cs@.take(cs@.len() as int) =~= cs@);
            while i > 0 && cs[i - 1] != '.'
                invariant
                    i <= cs@.len(),
                    last_index(cs@, '.') == last_index(cs@.take(i as int), '.'),
                decreases i,
            {
                assert(cs@.take(i as int).drop_last() =~= cs@.take(i - 1));
                i = i - 1;
            }
            if i > 1 {
                let stem = text::slice_of(&cs, 0, i - 1);
                assert(cs@.subrange(0, i - 1) =~= cs@.take(i - 1));
                Some(stem)
            } else {
                Some(name)
            }
        },
    }
}

/// `path` taken from `base`: an absolute path stands alone.
pub open spec fn joined_path(base: Seq<char>, path: Seq<char>) -> Seq<char> {
    if absolute(path) {
        path
    } else if base.len() == 0 || base.last() == '/' {
        base + path
    } else {
        base.push('/') + path
    }
}

/// `path` taken from `base`.
pub fn join(base: &str, path: &str) -> (r: String)
    ensures
        r@ == joined_path(base@, path@),
{
    if is_absolute(path) {
        return path.to_owned();
    }
    let mut out: String = base.to_owned();
    let v = text::char_vec(base);
    if v.len() > 0 && v[v.len() - 1] != '/' {
        out.push('/');
    }
    out.push_str(path);
    out
}

/// Whether the two steps are the same.
pub fn same_component(a: &Component, b: &Component) -> (r: bool)
    ensures
        r == (a@ == b@),
{
    match (a, b) {
        (Component::RootDir, Component::RootDir) => true,
        (Component::CurDir, Component::CurDir) => true,
        (Component::ParentDir, Component::ParentDir) => true,
        (Component::Normal(x), Component::Normal(y)) => text::str_eq(x.as_str(), y.as_str()),
        _ => false,
    }
}

/// Whether the steps of `path` begin with those of `base`.
pub open spec fn is_under(path: Seq<char>, base: Seq<char>) -> bool {
    let p = path_steps(path);
    let b = path_steps(base);
    b.len() <= p.len() && p.take(b.len() as int) == b
}

/// Whether the steps of `path` begin with those of `base`.
pub fn starts_with(path: &str, base: &str) -> (r: bool)
    ensures
        r == is_under(path@, base@),
{
    let p = components(path);
    let b = components(base);
    begins_with(&p, &b)
}

/// Whether the steps of `p` begin with those of `b`.
pub fn begins_with(p: &Vec<Component>, b: &Vec<Component>) -> (r: bool)
    ensures
        r == (b@.len() <= p@.len() && step_views(p@).take(b@.len() as int) == step_views(b@)),
{
    if p.len() < b.len() {
        return false;
    }
    let mut i: usize = 0;
    while i < b.len()
        invariant
            i <= b.len() <= p.len(),
            forall|j: int| 0 <= j < i ==> step_views(p@)[j] == step_views(b@)[j],
        decreases b.len() - i,
    {
        if !same_component(&p[i], &b[i]) {
            assert(step_views(p@).take(b@.len() as int)[i as int] != step_views(b@)[i as int]);
            return false;
        }
        i = i + 1;
    }
    assert(step_views(p@).take(b@.len() as int) =~= step_views(b@));
    true
}

/// The steps with `.` dropped and each `..` taking back the name before it.
pub open spec fn resolved(steps: Seq<Step>) -> Seq<Step>
    decreases steps.len(),
{
    if steps.len() == 0 {
        steps
    } else {
        let before = resolved(steps.drop_last());
        match steps.last() {
            Step::CurDir => before,
            Step::ParentDir => if before.len() > 0 && before.last() is Normal {
                before.drop_last()
            } else {
                before
            },
            other => before.push(other),
        }
    }
}

/// The steps of a path with `.` dropped and each `..` taking back the name
/// before it.
pub fn normalize_path(path: &str) -> (r: Vec<Component>)
    ensures
        step_views(r@) == resolved(path_steps(path@)),
{
    let parts = components(path);
    let ghost all = step_views(parts@);
    let mut out: Vec<Component> = Vec::new();
    let mut i: usize = 0;
    assert(all.take(0) =~= Seq::<Step>::empty());
    assert(step_views(out@) =~= Seq::<Step>::empty());
    while i < parts.len()
        invariant
            i <= parts.len(),
            all == step_views(parts@),
            step_views(out@) == resolved(all.take(i as int)),
        decreases parts.len() - i,
    {
        let ghost before = step_views(out@);
        proof {
            assert(all.take(i + 1).drop_last() =~= all.take(i as int));
            assert(all.take(i + 1).last() == parts@[i as int]@);
        }
        match &parts[i] {
            Component::CurDir => {},
            Component::ParentDir => {
                let n: usize = out.len();
                if n > 0 {
                    let is_name = match &out[n - 1] {
                        Component::Normal(_) => true,
                        _ => false,
                    };
                    assert(before.last() == out@[n - 1]@);
                    if is_name {
                        let _ = out.pop();
                        assert(step_views(out@) =~= before.drop_last());
                    }
                }
            },
            Component::RootDir => {
                out.push(Component::RootDir);
                assert(step_views(out@) =~= before.push(Step::RootDir));
            },
            Component::Normal(s) => {
                out.push(Component::Normal(s.clone()));
                assert(step_views(out@) =~= before.push(Step::Normal(s@)));
            },
        }
        i = i + 1;
    }
    assert(all.take(all.len() as int) =~= all);
    out
}

/// Whether the path resolves to `base` or to something inside it.
pub open spec fn resolves_under(path: Seq<char>, base: Seq<char>) -> bool {
    let p = resolved(path_steps(path));
    let b = resolved(path_steps(base));
    b.len() <= p.len() && p.take(b.len() as int) == b
}

/// Whether the path resolves to something strictly inside `base`.
pub open spec fn resolves_inside(path: Seq<char>, base: Seq<char>) -> bool {
    resolves_under(path, base) && resolved(path_steps(path)) != resolved(path_steps(base))
}

/// A resolved path holds no `.` and no `..`, and resolving it again changes
/// nothing.
pub proof fn law_resolved_is_stable(steps: Seq<Step>)
    ensures
        forall|i: int|
            0 <= i < resolved(steps).len() ==> (#[trigger] resolved(steps)[i] is RootDir || resolved(steps)[i] is Normal),
        resolved(resolved(steps)) == resolved(steps),
    decreases steps.len(),
{
    if steps.len() > 0 {
        law_resolved_is_stable(steps.drop_last());
        let before = resolved(steps.drop_last());
        let out = resolved(steps);
        match steps.last() {
            Step::CurDir => {},
            Step::ParentDir => {
                if before.len() > 0 && before.last() is Normal {
                    lemma_resolved_plain(before.drop_last());
                }
            },
            _ => {
                assert(out.drop_last() =~= before);
            },
        }
    }
}

proof fn lemma_resolved_plain(steps: Seq<Step>)
    requires
        forall|i: int| 0 <= i < steps.len() ==> (#[trigger] steps[i] is RootDir || steps[i] is Normal),
    ensures
        resolved(steps) == steps,
    decreases steps.len(),
{
    if steps.len() > 0 {
        lemma_resolved_plain(steps.drop_last());
        assert(steps.last() == steps[steps.len() - 1]);
        assert(resolved(steps) =~= steps);
    }
}

proof fn lemma_steps_joined(base: Seq<char>, piece: Seq<char>)
    requires
        !piece.contains('/'),
        piece.len() > 0,
    ensures
        absolute(joined_path(base, piece)) == absolute(base),
        ({
            let pieces = text::split_on(joined_path(base, piece), '/');
            &&& pieces.len() >= 1
            &&& pieces.last() == piece
            &&& piece_steps(pieces.drop_last()) == piece_steps(text::split_on(base, '/'))
            &&& pieces.len() == 1 <==> base.len() == 0
        }),
{
    let path = joined_path(base, piece);
    assert(piece[0] != '/') by {
        if piece[0] == '/' {
            assert(piece.contains('/'));
        }
    }
    text::lemma_split_plain(piece, '/');
    if base.len() == 0 {
        assert(path =~= piece);
        assert(seq![piece].drop_last() =~= Seq::<Seq<char>>::empty());
        assert(base =~= Seq::<char>::empty());
        reveal_with_fuel(piece_steps, 2);
        let e = text::split_on(base, '/');
        assert(e.len() == 1 && e[0].len() == 0);
        assert(e.drop_last() =~= Seq::<Seq<char>>::empty());
        assert(piece_steps(e) =~= Seq::<Step>::empty());
    } else if base.last() == '/' {
        let b = base.drop_last();
        assert(base =~= b.push('/') + Seq::<char>::empty());
        assert(path =~= b.push('/') + piece);
        text::lemma_split_concat(b, piece, '/');
        text::lemma_split_concat(b, Seq::empty(), '/');
        text::lemma_split_plain(Seq::empty(), '/');
        text::lemma_split_nonempty(b, '/');
        let whole = text::split_on(b, '/') + seq![piece];
        assert(whole.drop_last() =~= text::split_on(b, '/'));
        let older = text::split_on(b, '/') + seq![Seq::<char>::empty()];
        assert(older.drop_last() =~= text::split_on(b, '/'));
        assert(older.last().len() == 0);
        assert(piece_steps(older) == piece_steps(text::split_on(b, '/')));
    } else {
        assert(path =~= base.push('/') + piece);
        text::lemma_split_concat(base, piece, '/');
        text::lemma_split_nonempty(base, '/');
        let whole = text::split_on(base, '/') + seq![piece];
        assert(whole.drop_last() =~= text::split_on(base, '/'));
    }
}

/// A name that is joined to a path goes one step further: it lies under the path
/// and is what the new path names.
pub proof fn law_joined_name_is_one_step_further(base: Seq<char>, name: Seq<char>)
    requires
        name.len() > 0,
        !name.contains('/'),
        name != seq!['.'],
        name != seq!['.', '.'],
    ensures
        path_steps(joined_path(base, name)) == path_steps(base).push(Step::Normal(name)),
        name_of(joined_path(base, name)) == Some(name),
        is_under(joined_path(base, name), base),
        absolute(joined_path(base, name)) == absolute(base),
{
    lemma_steps_joined(base, name);
    let p = path_steps(joined_path(base, name));
    assert(p =~= path_steps(base).push(Step::Normal(name)));
    assert(p.take(path_steps(base).len() as int) =~= path_steps(base));
}

/// Two dots go a step up, and one dot goes nowhere but where a path begins with
/// it. A slash more at the end of a path changes nothing.
pub proof fn law_dots_are_steps_of_their_own(base: Seq<char>)
    ensures
        path_steps(joined_path(base, seq!['.', '.'])) == path_steps(base).push(Step::ParentDir),
        base.len() > 0 ==> path_steps(joined_path(base, seq!['.'])) == path_steps(base),
        path_steps(seq!['.']) == seq![Step::CurDir],
        base.len() > 0 ==> path_steps(base.push('/')) == path_steps(base),
        path_steps(seq!['/']) == seq![Step::RootDir],
        path_steps(Seq::empty()) == Seq::<Step>::empty(),
{
    lemma_steps_joined(base, seq!['.', '.']);
    lemma_steps_joined(base, seq!['.']);
    lemma_steps_joined(Seq::empty(), seq!['.']);
    assert(joined_path(Seq::empty(), seq!['.']) =~= seq!['.']);
    let up = path_steps(joined_path(base, seq!['.', '.']));
    assert(up =~= path_steps(base).push(Step::ParentDir));
    text::lemma_split_plain(Seq::empty(), '/');
    reveal_with_fuel(piece_steps, 2);
    let none = seq![Seq::<char>::empty()];
    assert(none.drop_last() =~= Seq::<Seq<char>>::empty());
    assert(piece_steps(none) =~= Seq::<Step>::empty());
    assert(piece_steps(Seq::<Seq<char>>::empty()) =~= Seq::<Step>::empty());
    assert(path_steps(Seq::empty()) =~= Seq::<Step>::empty());
    assert(path_steps(seq!['.']) =~= seq![Step::CurDir]);
    assert(Seq::<char>::empty().push('/') + Seq::<char>::empty() =~= seq!['/']);
    text::lemma_split_concat(Seq::empty(), Seq::empty(), '/');
    let two = none + none;
    assert(two.drop_last() =~= none);
    assert(piece_steps(two) =~= Seq::<Step>::empty());
    assert(path_steps(seq!['/']) =~= seq![Step::RootDir]);
    if base.len() > 0 {
        assert(base.push('/') + Seq::<char>::empty() =~= base.push('/'));
        text::lemma_split_concat(base, Seq::empty(), '/');
        let longer = text::split_on(base, '/') + none;
        assert(longer.drop_last() =~= text::split_on(base, '/'));
        assert(longer.last().len() == 0);
        assert(piece_steps(longer) == piece_steps(text::split_on(base, '/')));
        assert(path_steps(base.push('/')) =~= path_steps(base));
    }
}

/// An absolute path stands for itself, whatever it is joined to.
pub proof fn law_absolute_path_stands_for_itself(base: Seq<char>, path: Seq<char>)
    ensures
        path.len() > 0 && path[0] == '/' ==> joined_path(base, path) == path,
        absolute(path) <==> path.len() > 0 && path[0] == '/',
        !absolute(path) ==> joined_path(base, path).len() <= base.len() + 1 + path.len() && joined_path(
            base,
            path,
        ).take(base.len() as int) == base && joined_path(base, path).skip(joined_path(base, path).len() - path.len())
            == path,
{
    if !absolute(path) {
        let j = joined_path(base, path);
        assert(j.take(base.len() as int) =~= base);
        assert(j.skip(j.len() - path.len()) =~= path);
    }
}

/// Going up undoes the name before it, one dot is nothing, and there is nothing
/// above the top.
pub proof fn law_going_up_undoes_a_name(steps: Seq<Step>, name: Seq<char>)
    ensures
        resolved(steps.push(Step::Normal(name)).push(Step::ParentDir)) == resolved(steps),
        resolved(steps.push(Step::CurDir)) == resolved(steps),
        resolved(steps.push(Step::Normal(name))) == resolved(steps).push(Step::Normal(name)),
        resolved(seq![Step::RootDir, Step::ParentDir]) == seq![Step::RootDir],
        resolved(seq![Step::ParentDir]) == Seq::<Step>::empty(),
        (forall|i: int| 0 <= i < steps.len() ==> (#[trigger] steps[i] is RootDir || steps[i] is Normal)) ==> resolved(
            steps,
        ) == steps,
    decreases steps.len(),
{
    reveal_with_fuel(resolved, 3);
    let further = steps.push(Step::Normal(name));
    assert(further.push(Step::ParentDir).drop_last() =~= further);
    assert(further.drop_last() =~= steps);
    assert(steps.push(Step::CurDir).drop_last() =~= steps);
    assert(resolved(further).drop_last() =~= resolved(steps));
    let up = seq![Step::RootDir, Step::ParentDir];
    assert(up.drop_last() =~= seq![Step::RootDir]);
    assert(seq![Step::RootDir].drop_last() =~= Seq::<Step>::empty());
    assert(seq![Step::ParentDir].drop_last() =~= Seq::<Step>::empty());
    assert(resolved(seq![Step::RootDir]) =~= seq![Step::RootDir]);
    if steps.len() > 0 && (forall|i: int|
        0 <= i < steps.len() ==> (#[trigger] steps[i] is RootDir || steps[i] is Normal)) {
        let front = steps.drop_last();
        assert forall|i: int| 0 <= i < front.len() implies (#[trigger] front[i] is RootDir || front[i] is Normal) by {
            assert(front[i] == steps[i]);
        }
        law_going_up_undoes_a_name(front, name);
        assert(steps[steps.len() - 1] is RootDir || steps[steps.len() - 1] is Normal);
        assert(steps =~= front.push(steps.last()));
    }
}

/// A name without its extension is what stands in front of its last dot; a dot
/// that a name begins with begins no extension.
pub proof fn law_stem_stands_in_front_of_the_last_dot(path: Seq<char>, stem: Seq<char>, extension: Seq<char>)
    requires
        !extension.contains('.'),
    ensures
        name_of(path) == Some(stem + seq!['.'] + extension) && stem.len() > 0 ==> stem_of(path) == Some(stem),
        name_of(path) == Some(seq!['.'] + extension) ==> stem_of(path) == name_of(path),
        name_of(path) == Some(extension) ==> stem_of(path) == Some(extension),
        name_of(path) is None ==> stem_of(path) is None,
{
    lemma_last_index(stem + seq!['.'], extension, '.');
    assert((stem + seq!['.']).drop_last() =~= stem);
    lemma_last_index(seq!['.'], extension, '.');
    lemma_last_index(Seq::empty(), extension, '.');
    assert(Seq::empty() + extension =~= extension);
    assert((stem + seq!['.'] + extension).take(stem.len() as int) =~= stem);
}

proof fn lemma_last_index(front: Seq<char>, rest: Seq<char>, c: char)
    requires
        !rest.contains(c),
    ensures
        last_index(front + rest, c) == last_index(front, c),
    decreases rest.len(),
{
    if rest.len() == 0 {
        assert(front + rest =~= front);
    } else {
        assert(rest.contains(rest.last())) by {
            assert(rest[rest.len() - 1] == rest.last());
        }
        assert(!rest.drop_last().contains(c)) by {
            if rest.drop_last().contains(c) {
                let k = choose|k: int| 0 <= k < rest.drop_last().len() && rest.drop_last()[k] == c;
                assert(rest[k] == c);
                assert(rest.contains(c));
            }
        }
        lemma_last_index(front, rest.drop_last(), c);
        assert((front + rest).drop_last() =~= front + rest.drop_last());
    }
}

/// A path lies under another exactly where it has all of its steps and goes on
/// from there, and inside it where it goes at least one step further.
pub proof fn law_under_is_by_whole_steps(path: Seq<char>, base: Seq<char>)
    ensures
        is_under(path, base) <==> path_steps(base).len() <= path_steps(path).len() && forall|i: int|
            0 <= i < path_steps(base).len() ==> #[trigger] path_steps(path)[i] == path_steps(base)[i],
        resolves_under(path, base) <==> resolved(path_steps(base)).len() <= resolved(path_steps(path)).len() && forall|
            i: int,
        |
            0 <= i < resolved(path_steps(base)).len() ==> #[trigger] resolved(path_steps(path))[i] == resolved(
                path_steps(base),
            )[i],
        resolves_inside(path, base) <==> resolves_under(path, base) && resolved(path_steps(base)).len() < resolved(
            path_steps(path),
        ).len(),
        is_under(path, path),
{
    lemma_prefix(path_steps(path), path_steps(base));
    lemma_prefix(path_steps(path), path_steps(path));
    lemma_prefix(resolved(path_steps(path)), resolved(path_steps(base)));
    let p = resolved(path_steps(path));
    let b = resolved(path_steps(base));
    if resolves_under(path, base) && b.len() == p.len() {
        assert(p =~= b);
    }
}

proof fn lemma_prefix(p: Seq<Step>, b: Seq<Step>)
    ensures
        b.len() <= p.len() ==> (p.take(b.len() as int) == b <==> forall|i: int|
            0 <= i < b.len() ==> #[trigger] p[i] == b[i]),
{
    if b.len() <= p.len() && p.take(b.len() as int) == b {
        assert forall|i: int| 0 <= i < b.len() implies #[trigger] p[i] == b[i] by {
            assert(p.take(b.len() as int)[i] == b[i]);
        }
    }
    if b.len() <= p.len() && (forall|i: int| 0 <= i < b.len() ==> #[trigger] p[i] == b[i]) {
        assert(p.take(b.len() as int) =~= b);
    }
}

} // verus!
