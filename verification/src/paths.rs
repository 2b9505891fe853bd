//! File paths: taking them apart, putting them together, and telling the safe ones.
//!
//! A path is a text whose parts are separated by `/`.
use crate::text::{append_text, chars_of, joined, text_of};
use vstd::prelude::*;

verus! {

/// The texts of some strings.
pub open spec fn texts(strings: Seq<String>) -> Seq<Seq<char>> {
    strings.map_values(|s: String| s@)
}

/// The parts of a path between its separators, empty ones too.
pub open spec fn split(path: Seq<char>) -> Seq<Seq<char>>
    decreases path.len(),
{
    if path.len() == 0 {
        seq![Seq::<char>::empty()]
    } else {
        let before = split(path.drop_last());
        if path.last() == '/' {
            before.push(Seq::<char>::empty())
        } else {
            before.drop_last().push(before.last().push(path.last()))
        }
    }
}

/// The parts of a path that name something: not the empty ones, nor those that name the directory
/// itself.
pub open spec fn named(parts: Seq<Seq<char>>) -> Seq<Seq<char>>
    decreases parts.len(),
{
    if parts.len() == 0 {
        Seq::empty()
    } else if parts.last().len() == 0 || parts.last() == seq!['.'] {
        named(parts.drop_last())
    } else {
        named(parts.drop_last()).push(parts.last())
    }
}

/// Parts put together with separators between them.
pub open spec fn join(parts: Seq<Seq<char>>) -> Seq<char>
    decreases parts.len(),
{
    if parts.len() == 0 {
        Seq::empty()
    } else if parts.len() == 1 {
        parts[0]
    } else {
        join(parts.drop_last()).push('/') + parts.last()
    }
}

/// Whether a part of a path names something below the directory it is in, and only one level
/// below.
pub open spec fn is_plain(part: Seq<char>) -> bool {
    &&& part.len() > 0
    &&& part != seq!['.']
    &&& part != seq!['.', '.']
    &&& !part.contains('/')
}

/// Whether a path that another peer names stays below the directory it is put in: it does not
/// start at the root or at the directory itself, and it never goes up.
pub open spec fn is_safe(path: Seq<char>) -> bool {
    &&& path.len() > 0 ==> path[0] != '/'
    &&& split(path)[0] != seq!['.']
    &&& forall|i: int| 0 <= i < split(path).len() ==> (#[trigger] split(path)[i]) != seq!['.', '.']
}

/// The components of a path.
pub open spec fn components(path: Seq<char>) -> Seq<Seq<char>> {
    named(split(path))
}

pub proof fn lemma_split_nonempty(path: Seq<char>)
    ensures
        split(path).len() > 0,
    decreases path.len(),
{
    if path.len() > 0 {
        lemma_split_nonempty(path.drop_last());
    }
}

/// No part of a path has a separator in it.
pub proof fn lemma_split_parts(path: Seq<char>)
    ensures
        split(path).len() > 0,
        forall|i: int| 0 <= i < split(path).len() ==> !(#[trigger] split(path)[i]).contains('/'),
    decreases path.len(),
{
    if path.len() > 0 {
        let before = split(path.drop_last());
        lemma_split_parts(path.drop_last());
        if path.last() != '/' {
            let grown = before.last().push(path.last());
            assert(!before.last().contains('/'));
            assert(!grown.contains('/')) by {
                assert forall|k: int| 0 <= k < grown.len() implies grown[k] != '/' by {
                    if k < before.last().len() {
                        assert(before.last()[k] == grown[k]);
                        assert(before.last().contains(before.last()[k]));
                    }
                }
            }
        }
        assert forall|i: int| 0 <= i < split(path).len() implies !(
        #[trigger] split(path)[i]).contains('/') by {
            if i < before.len() - 1 || (path.last() == '/' && i < before.len()) {
                assert(split(path)[i] == before[i]);
            }
        }
    }
}

proof fn lemma_named(parts: Seq<Seq<char>>, i: int)
    requires
        0 <= i < named(parts).len(),
    ensures
        exists|j: int| 0 <= j < parts.len() && (#[trigger] parts[j]) == named(parts)[i],
        named(parts)[i].len() > 0,
        named(parts)[i] != seq!['.'],
    decreases parts.len(),
{
    let rest = parts.drop_last();
    if i < named(rest).len() {
        lemma_named(rest, i);
        let j = choose|j: int| 0 <= j < rest.len() && (#[trigger] rest[j]) == named(rest)[i];
        assert(parts[j] == named(parts)[i]);
    } else {
        assert(parts[parts.len() - 1] == named(parts)[i]);
    }
}

/// Every component of a safe path is plain: put below a directory, such a path names something
/// below that directory.
pub proof fn law_safe_path_stays_inside(path: Seq<char>)
    requires
        is_safe(path),
    ensures
        forall|i: int| 0 <= i < components(path).len() ==> is_plain(#[trigger] components(path)[i]),
{
    lemma_split_parts(path);
    assert forall|i: int| 0 <= i < components(path).len() implies is_plain(
        #[trigger] components(path)[i],
    ) by {
        lemma_named(split(path), i);
    }
}

proof fn lemma_split_separator(a: Seq<char>, b: Seq<char>)
    requires
        !b.contains('/'),
    ensures
        split(a.push('/') + b) == split(a).push(b),
    decreases b.len(),
{
    let whole = a.push('/') + b;
    if b.len() == 0 {
        assert(b =~= Seq::<char>::empty());
        assert(whole =~= a.push('/'));
        assert(whole.drop_last() =~= a);
        assert(split(whole) =~= split(a).push(b));
    } else {
        let shorter = b.drop_last();
        assert forall|k: int| 0 <= k < shorter.len() implies shorter[k] != '/' by {
            assert(b[k] == shorter[k]);
            assert(b.contains(b[k]));
        }
        lemma_split_separator(a, shorter);
        assert(whole.drop_last() =~= a.push('/') + shorter);
        assert(b.contains(b.last()));
        assert(whole.last() == b.last());
        assert(shorter.push(b.last()) =~= b);
        assert(split(whole) =~= split(a).push(b));
    }
}

/// What stands before a separator is taken apart on its own.
pub proof fn lemma_split_prefix(a: Seq<char>, b: Seq<char>)
    ensures
        split(a.push('/') + b).len() > split(a).len(),
        split(a.push('/') + b).take(split(a).len() as int) == split(a),
    decreases b.len(),
{
    let whole = a.push('/') + b;
    if b.len() == 0 {
        assert(whole =~= a.push('/'));
        assert(whole.drop_last() =~= a);
    } else {
        lemma_split_prefix(a, b.drop_last());
        assert(whole.drop_last() =~= a.push('/') + b.drop_last());
        assert(whole.last() == b.last());
    }
    assert(split(whole).take(split(a).len() as int) =~= split(a));
}

proof fn lemma_split_single(b: Seq<char>)
    requires
        !b.contains('/'),
    ensures
        split(b) == seq![b],
    decreases b.len(),
{
    if b.len() == 0 {
        assert(b =~= Seq::<char>::empty());
    } else {
        let shorter = b.drop_last();
        assert forall|k: int| 0 <= k < shorter.len() implies shorter[k] != '/' by {
            assert(b[k] == shorter[k]);
            assert(b.contains(b[k]));
        }
        lemma_split_single(shorter);
        assert(b.contains(b.last()));
        assert(shorter.push(b.last()) =~= b);
        assert(split(b) =~= seq![b]);
    }
}

/// Taking apart what was put together gives the parts again.
pub proof fn lemma_split_join(parts: Seq<Seq<char>>)
    requires
        parts.len() > 0,
        forall|i: int| 0 <= i < parts.len() ==> !(#[trigger] parts[i]).contains('/'),
    ensures
        split(join(parts)) == parts,
    decreases parts.len(),
{
    if parts.len() == 1 {
        lemma_split_single(parts[0]);
        assert(seq![parts[0]] =~= parts);
    } else {
        let rest = parts.drop_last();
        assert forall|i: int| 0 <= i < rest.len() implies !(#[trigger] rest[i]).contains('/') by {
            assert(rest[i] == parts[i]);
        }
        lemma_split_join(rest);
        lemma_split_separator(join(rest), parts.last());
        assert(rest.push(parts.last()) =~= parts);
    }
}

proof fn lemma_named_keeps(parts: Seq<Seq<char>>)
    requires
        forall|i: int| 0 <= i < parts.len() ==> is_plain(#[trigger] parts[i]),
    ensures
        named(parts) == parts,
    decreases parts.len(),
{
    if parts.len() > 0 {
        let rest = parts.drop_last();
        assert forall|i: int| 0 <= i < rest.len() implies is_plain(#[trigger] rest[i]) by {
            assert(rest[i] == parts[i]);
        }
        lemma_named_keeps(rest);
        assert(is_plain(parts[parts.len() - 1]));
        assert(rest.push(parts.last()) =~= parts);
    } else {
        assert(named(parts) =~= parts);
    }
}

proof fn lemma_join_first(parts: Seq<Seq<char>>)
    requires
        parts.len() > 0,
        parts[0].len() > 0,
    ensures
        join(parts).len() > 0,
        join(parts)[0] == parts[0][0],
    decreases parts.len(),
{
    if parts.len() > 1 {
        let rest = parts.drop_last();
        assert(rest[0] == parts[0]);
        lemma_join_first(rest);
    }
}

/// The components of a path, put together again, are the components of that path, and the path is
/// safe.
pub proof fn law_plain_components_round_trip(parts: Seq<Seq<char>>)
    requires
        forall|i: int| 0 <= i < parts.len() ==> is_plain(#[trigger] parts[i]),
    ensures
        components(join(parts)) == parts,
        is_safe(join(parts)),
{
    if parts.len() == 0 {
        assert(split(join(parts)) =~= seq![Seq::<char>::empty()]);
        let p = seq![Seq::<char>::empty()];
        assert(p.drop_last() =~= Seq::<Seq<char>>::empty());
        assert(named(p.drop_last()) =~= Seq::<Seq<char>>::empty());
        assert(named(p) =~= parts);
    } else {
        assert forall|i: int| 0 <= i < parts.len() implies !(#[trigger] parts[i]).contains('/') by {
            assert(is_plain(parts[i]));
        }
        lemma_split_join(parts);
        lemma_named_keeps(parts);
        assert(is_plain(parts[0]));
        lemma_join_first(parts);
        assert(parts[0].contains(parts[0][0]));
        assert forall|i: int| 0 <= i < split(join(parts)).len() implies (
        #[trigger] split(join(parts))[i]) != seq!['.', '.'] by {
            assert(is_plain(parts[i]));
        }
    }
}

/// A path below some directory, as its components.
#[derive(Clone, Debug, PartialEq, Eq)]
pub struct RelativePath {
    pub components: Vec<String>,
}

impl View for RelativePath {
    type V = Seq<Seq<char>>;

    open spec fn view(&self) -> Seq<Seq<char>> {
        texts(self.components@)
    }
}

/// The texts of some character lists.
pub open spec fn char_texts(lists: Seq<Vec<char>>) -> Seq<Seq<char>> {
    lists.map_values(|v: Vec<char>| v@)
}

/// Takes a path apart at its separators.
pub fn split_path(path: &str) -> (r: Vec<Vec<char>>)
    ensures
        char_texts(r@) == split(path@),
        r@.len() > 0,
{
    let chars = chars_of(path);
    let mut parts: Vec<Vec<char>> = Vec::new();
    let mut current: Vec<char> = Vec::new();
    let mut i: usize = 0;
    assert(chars@.take(0) =~= Seq::<char>::empty());
    assert(char_texts(parts@).push(current@) =~= split(chars@.take(0)));
    while i < chars.len()
        invariant
            i <= chars@.len(),
            chars@ == path@,
            char_texts(parts@).push(current@) == split(chars@.take(i as int)),
        decreases chars@.len() - i,
    {
        let c = chars[i];
        proof {
            assert(chars@.take(i + 1).drop_last() =~= chars@.take(i as int));
            assert(chars@.take(i + 1).last() == c);
        }
        if c == '/' {
            let ghost before = char_texts(parts@).push(current@);
            let mut done: Vec<char> = Vec::new();
            std::mem::swap(&mut done, &mut current);
            parts.push(done);
            assert(char_texts(parts@).push(current@) =~= before.push(Seq::<char>::empty()));
        } else {
            let ghost before = char_texts(parts@).push(current@);
            current.push(c);
            assert(char_texts(parts@).push(current@) =~= before.drop_last().push(
                before.last().push(c),
            ));
        }
        i += 1;
    }
    assert(chars@.take(i as int) =~= chars@);
    let ghost before = char_texts(parts@).push(current@);
    parts.push(current);
    assert(char_texts(parts@) =~= before);
    parts
}

fn is_dot(part: &Vec<char>) -> (r: bool)
    ensures
        r == (part@ == seq!['.']),
{
    let r = part.len() == 1 && part[0] == '.';
    assert(r ==> part@ =~= seq!['.']);
    r
}

fn is_dot_dot(part: &Vec<char>) -> (r: bool)
    ensures
        r == (part@ == seq!['.', '.']),
{
    let r = part.len() == 2 && part[0] == '.' && part[1] == '.';
    assert(r ==> part@ =~= seq!['.', '.']);
    r
}

/// The parts that name something, as strings.
pub fn named_parts(parts: &Vec<Vec<char>>) -> (r: Vec<String>)
    ensures
        texts(r@) == named(char_texts(parts@)),
{
    let mut r: Vec<String> = Vec::new();
    let mut i: usize = 0;
    let ghost all = char_texts(parts@);
    assert(all.take(0) =~= Seq::<Seq<char>>::empty());
    assert(texts(r@) =~= named(all.take(0)));
    while i < parts.len()
        invariant
            i <= parts@.len(),
            all == char_texts(parts@),
            texts(r@) == named(all.take(i as int)),
        decreases parts@.len() - i,
    {
        assert(all.take(i + 1).drop_last() =~= all.take(i as int));
        assert(all.take(i + 1).last() == parts@[i as int]@);
        if parts[i].len() > 0 && !is_dot(&parts[i]) {
            let ghost before = texts(r@);
            r.push(text_of(parts[i].as_slice()));
            assert(texts(r@) =~= before.push(parts@[i as int]@));
        }
        i += 1;
    }
    assert(all.take(i as int) =~= all);
    r
}

/// Convert a peer-provided path into a safe relative local path.
///
/// Remote file indexes are untrusted. Only normal relative path components are
/// accepted so a peer cannot write outside the configured download directory.
pub fn safe_remote_relative_path(path: &str) -> (r: Result<RelativePath, String>)
    ensures
        match r {
            Ok(relative) => is_safe(path@) && relative@ == components(path@),
            Err(error) => !is_safe(path@) && error@
                == "Remote path contains an unsafe component: "@ + path@,
        },
{
    let parts = split_path(path);
    let ghost all = split(path@);
    assert(all[0] == parts@[0]@);
    let chars = chars_of(path);
    let mut safe = !(chars.len() > 0 && chars[0] == '/') && !is_dot(&parts[0]);
    let mut i: usize = 0;
    while i < parts.len()
        invariant
            i <= parts@.len(),
            all == char_texts(parts@),
            all == split(path@),
            all.len() > 0,
            safe <==> (path@.len() > 0 ==> path@[0] != '/') && all[0] != seq!['.'] && forall|k: int|
                0 <= k < i ==> (#[trigger] all[k]) != seq!['.', '.'],
        decreases parts@.len() - i,
    {
        assert(all[i as int] == parts@[i as int]@);
        if is_dot_dot(&parts[i]) {
            safe = false;
        }
        i += 1;
    }
    if safe {
        Ok(RelativePath { components: named_parts(&parts) })
    } else {
        Err(joined("Remote path contains an unsafe component: ", path))
    }
}

/// Whether a path is the requested one or below it. This goes by components: a sibling whose name
/// only starts alike is not below.
pub open spec fn is_within(requested: Seq<Seq<char>>, entry: Seq<Seq<char>>) -> bool {
    requested.len() <= entry.len() && entry.take(requested.len() as int) == requested
}

/// Whether an entry that a peer lists belongs to what was requested.
pub fn remote_path_is_within_request(requested_path: &RelativePath, entry_path: &RelativePath) -> (r:
    bool)
    ensures
        r == is_within(requested_path@, entry_path@),
{
    let n: usize = requested_path.components.len();
    if n > entry_path.components.len() {
        return false;
    }
    let mut i: usize = 0;
    while i < n
        invariant
            i <= n,
            n == requested_path.components@.len(),
            n <= entry_path.components@.len(),
            forall|k: int| 0 <= k < i ==> requested_path@[k] == entry_path@[k],
        decreases n - i,
    {
        if requested_path.components[i] != entry_path.components[i] {
            assert(requested_path@[i as int] != entry_path@[i as int]);
            assert(entry_path@.take(n as int)[i as int] == entry_path@[i as int]);
            return false;
        }
        i += 1;
    }
    assert(entry_path@.take(n as int) =~= requested_path@);
    true
}

/// Being within is reflexive and transitive, and everything is within the empty path.
pub proof fn law_within_is_a_preorder(a: Seq<Seq<char>>, b: Seq<Seq<char>>, c: Seq<Seq<char>>)
    ensures
        is_within(a, a),
        is_within(Seq::empty(), a),
        is_within(a, b) && is_within(b, c) ==> is_within(a, c),
{
    assert(a.take(a.len() as int) =~= a);
    assert(a.take(0) =~= Seq::<Seq<char>>::empty());
    if is_within(a, b) && is_within(b, c) {
        assert(c.take(a.len() as int) =~= c.take(b.len() as int).take(a.len() as int));
    }
}

/// A path below a directory: with a separator between them, unless the directory is empty or ends
/// in one.
pub open spec fn below(dir: Seq<char>, relative: Seq<char>) -> Seq<char> {
    if dir.len() == 0 || dir.last() == '/' {
        dir + relative
    } else {
        dir.push('/') + relative
    }
}

/// Puts components together.
pub fn join_components(parts: &Vec<String>) -> (r: String)
    ensures
        r@ == join(texts(parts@)),
{
    let mut r = String::new();
    let mut i: usize = 0;
    let ghost all = texts(parts@);
    assert(all.take(0) =~= Seq::<Seq<char>>::empty());
    while i < parts.len()
        invariant
            i <= parts@.len(),
            all == texts(parts@),
            r@ == join(all.take(i as int)),
        decreases parts@.len() - i,
    {
        assert(all.take(i + 1).drop_last() =~= all.take(i as int));
        assert(all.take(i + 1).last() == parts@[i as int]@);
        if i > 0 {
            r.push('/');
            append_text(&mut r, parts[i].as_str());
        } else {
            append_text(&mut r, parts[i].as_str());
            assert(r@ =~= parts@[0]@);
            assert(all.take(1)[0] == parts@[0]@);
        }
        i += 1;
    }
    assert(all.take(i as int) =~= all);
    r
}

/// Puts a path below a directory.
pub fn join_path(dir: &str, relative: &str) -> (r: String)
    ensures
        r@ == below(dir@, relative@),
{
    let chars = chars_of(dir);
    let mut r = dir.to_owned();
    if chars.len() > 0 && chars[chars.len() - 1] != '/' {
        r.push('/');
    }
    append_text(&mut r, relative);
    r
}

/// Where a file that a peer offers is written to.
pub fn output_path_for_remote_path(download_dir: &str, remote_path: &str) -> (r: Result<
    String,
    String,
>)
    ensures
        match r {
            Ok(output) => {
                &&& is_safe(remote_path@)
                &&& components(remote_path@).len() > 0
                &&& output@ == below(download_dir@, join(components(remote_path@)))
            },
            Err(error) => if is_safe(remote_path@) {
                components(remote_path@).len() == 0 && error@ == "Remote file path is empty"@
            } else {
                error@ == "Remote path contains an unsafe component: "@ + remote_path@
            },
        },
{
    match safe_remote_relative_path(remote_path) {
        Ok(relative) => {
            if relative.components.len() == 0 {
                return Err("Remote file path is empty".to_owned());
            }
            let text = join_components(&relative.components);
            Ok(join_path(download_dir, text.as_str()))
        },
        Err(error) => Err(error),
    }
}

/// A path that another peer names may be used if, taken apart, it does not start at the root or at
/// the directory itself, and none of its parts goes up. Other names may stand anywhere in it.
pub proof fn law_which_paths_are_safe(parts: Seq<Seq<char>>)
    requires
        parts.len() > 0,
        parts[0].len() > 0,
        forall|i: int| 0 <= i < parts.len() ==> !(#[trigger] parts[i]).contains('/'),
    ensures
        is_safe(join(parts)) <==> parts[0] != seq!['.'] && !parts.contains(seq!['.', '.']),
        !is_safe(seq!['/'] + join(parts)),
{
    lemma_split_join(parts);
    lemma_join_first(parts);
    assert(parts[0].contains(parts[0][0]));
    assert((seq!['/'] + join(parts))[0] == '/');
    if parts.contains(seq!['.', '.']) {
        let i = choose|i: int| 0 <= i < parts.len() && parts[i] == seq!['.', '.'];
        assert(split(join(parts))[i] == seq!['.', '.']);
    }
}

/// What is below a path continues it: the components of the path come first, and then any others.
pub proof fn law_what_is_below_continues_the_path(
    requested: Seq<Seq<char>>,
    entry: Seq<Seq<char>>,
    rest: Seq<Seq<char>>,
)
    ensures
        is_within(requested, requested + rest),
        is_within(requested, entry) ==> entry == requested + entry.skip(requested.len() as int),
{
    assert((requested + rest).take(requested.len() as int) =~= requested);
    if is_within(requested, entry) {
        assert(entry =~= entry.take(requested.len() as int) + entry.skip(requested.len() as int));
    }
}

proof fn lemma_named_of_both(a: Seq<Seq<char>>, b: Seq<Seq<char>>)
    ensures
        named(a + b) == named(a) + named(b),
    decreases b.len(),
{
    if b.len() == 0 {
        assert(a + b =~= a);
        assert(named(b) =~= Seq::empty());
        assert(named(a) + named(b) =~= named(a));
    } else {
        lemma_named_of_both(a, b.drop_last());
        assert((a + b).drop_last() =~= a + b.drop_last());
        assert((a + b).last() == b.last());
        assert(named(a + b) =~= named(a) + named(b));
    }
}

proof fn lemma_split_of_both(a: Seq<char>, b: Seq<char>)
    ensures
        split(a.push('/') + b) == split(a) + split(b),
    decreases b.len(),
{
    let whole = a.push('/') + b;
    if b.len() == 0 {
        assert(whole =~= a.push('/'));
        assert(whole.drop_last() =~= a);
        assert(split(whole) =~= split(a) + split(b));
    } else {
        lemma_split_of_both(a, b.drop_last());
        lemma_split_nonempty(b.drop_last());
        assert(whole.drop_last() =~= a.push('/') + b.drop_last());
        assert(whole.last() == b.last());
        assert(split(whole) =~= split(a) + split(b));
    }
}

/// A path below a directory has the components of the directory, followed by its own.
pub proof fn law_components_of_a_path_below(dir: Seq<char>, relative: Seq<char>)
    ensures
        components(below(dir, relative)) == components(dir) + components(relative),
{
    if dir.len() == 0 {
        assert(below(dir, relative) =~= relative);
        assert(split(dir) =~= seq![Seq::<char>::empty()]);
        let nothing = seq![Seq::<char>::empty()];
        assert(nothing.drop_last() =~= Seq::<Seq<char>>::empty());
        assert(named(nothing.drop_last()) =~= Seq::<Seq<char>>::empty());
        assert(components(dir) =~= Seq::<Seq<char>>::empty());
        assert(components(dir) + components(relative) =~= components(relative));
    } else if dir.last() == '/' {
        let start = dir.drop_last();
        assert(below(dir, relative) =~= start.push('/') + relative);
        lemma_split_of_both(start, relative);
        lemma_named_of_both(split(start), split(relative));
        lemma_split_of_both(start, Seq::empty());
        assert(start.push('/') + Seq::<char>::empty() =~= dir);
        assert(split(Seq::<char>::empty()) =~= seq![Seq::<char>::empty()]);
        lemma_named_of_both(split(start), seq![Seq::<char>::empty()]);
        let nothing = seq![Seq::<char>::empty()];
        assert(nothing.drop_last() =~= Seq::<Seq<char>>::empty());
        assert(named(nothing.drop_last()) =~= Seq::<Seq<char>>::empty());
        assert(named(nothing) =~= Seq::<Seq<char>>::empty());
        assert(components(dir) =~= named(split(start)));
    } else {
        lemma_split_of_both(dir, relative);
        lemma_named_of_both(split(dir), split(relative));
    }
}

} // verus!
