//! File paths by their components.
use vstd::prelude::*;

use crate::same::Same;
use crate::text::{
    behind_last_of, chars_of, end_of_last, same_text, split, split_on, text_of,
};

verus! {

/// The path names a place from the root of the file system on.
pub open spec fn is_absolute(path: Seq<char>) -> bool {
    path.len() > 0 && path[0] == '/'
}

/// The pieces that name something: not empty, and not the current directory.
pub open spec fn named_pieces(pieces: Seq<Seq<char>>) -> Seq<Seq<char>>
    decreases pieces.len(),
{
    if pieces.len() == 0 {
        Seq::empty()
    } else {
        let head = named_pieces(pieces.drop_last());
        if pieces.last().len() == 0 || pieces.last() == "."@ {
            head
        } else {
            head.push(pieces.last())
        }
    }
}

/// What stands in front of the named pieces: the root for an absolute path, the
/// current directory for a path that begins with it.
pub open spec fn path_start(path: Seq<char>) -> Seq<Seq<char>> {
    if is_absolute(path) {
        seq!["/"@]
    } else if split_on(path, '/')[0] == "."@ {
        seq!["."@]
    } else {
        Seq::empty()
    }
}

/// The components of a path. Repeated and trailing separators and the current
/// directory inside the path do not count.
pub open spec fn components(path: Seq<char>) -> Seq<Seq<char>> {
    path_start(path) + named_pieces(split_on(path, '/'))
}

/// Both texts name the same components.
pub open spec fn same_place(a: Seq<char>, b: Seq<char>) -> bool {
    components(a) == components(b)
}

/// `path` is `root` or lies below it.
pub open spec fn lies_in(path: Seq<char>, root: Seq<char>) -> bool {
    components(root).is_prefix_of(components(path))
}

/// `path` lies below `root`.
pub open spec fn lies_below(path: Seq<char>, root: Seq<char>) -> bool {
    lies_in(path, root) && !same_place(path, root)
}

/// `path` taken from the directory `base`; an absolute path stands for itself.
pub open spec fn joined_path(base: Seq<char>, path: Seq<char>) -> Seq<char> {
    if is_absolute(path) || base.len() == 0 {
        path
    } else if base.last() == '/' {
        base + path
    } else {
        base.push('/') + path
    }
}

/// How much of a path stands in front of its names: the root, or the current
/// directory that it begins with.
pub open spec fn lead_len(path: Seq<char>) -> nat {
    if is_absolute(path) || split_on(path, '/')[0] == "."@ {
        1
    } else {
        0
    }
}

/// A path without its last piece and the separator in front of it; the lead
/// stays.
pub open spec fn without_last(path: Seq<char>, lead: nat) -> Seq<char> {
    let n = behind_last_of(path, '/');
    path.take(
        if n <= lead {
            lead as int
        } else {
            n - 1
        },
    )
}

/// A path up to the end of its last name: without the separators and the
/// current directories that follow.
pub open spec fn to_last_name(path: Seq<char>, lead: nat) -> Seq<char>
    decreases path.len(),
{
    let piece = path.skip(behind_last_of(path, '/'));
    let shorter = without_last(path, lead);
    if path.len() > lead && (piece.len() == 0 || piece == "."@) && shorter.len() < path.len() {
        to_last_name(shorter, lead)
    } else {
        path
    }
}

/// The directory that a path stands in: the path up to the name before its last
/// one. The root and the empty path stand in no other; the current directory is
/// given for them.
pub open spec fn directory_of(path: Seq<char>) -> Seq<char> {
    let lead = lead_len(path);
    let named = to_last_name(path, lead);
    if named.len() > lead {
        to_last_name(without_last(named, lead), lead)
    } else if named.len() > 0 && !is_absolute(path) {
        Seq::empty()
    } else {
        "."@
    }
}

/// Whether the path names a place from the root of the file system on.
pub fn absolute(path: &str) -> (r: bool)
    ensures
        r == is_absolute(path@),
{
    let chars = chars_of(path);
    chars.len() > 0 && chars[0] == '/'
}

/// The components of a path.
pub fn split_path(path: &str) -> (r: Vec<String>)
    ensures
        r.deep_view() == components(path@),
{
    let pieces = split(path, '/');
    let mut out: Vec<String> = Vec::new();
    assert(pieces.deep_view()[0] == pieces@[0]@);
    if absolute(path) {
        out.push("/".to_owned());
    } else if same_text(pieces[0].as_str(), ".") {
        out.push(".".to_owned());
    }
    assert(out.deep_view() =~= path_start(path@));
    let ghost start = out.deep_view();
    let mut i: usize = 0;
    assert(start + named_pieces(pieces.deep_view().take(0)) =~= start);
    while i < pieces.len()
        invariant
            i <= pieces.len(),
            out.deep_view() == start + named_pieces(pieces.deep_view().take(i as int)),
        decreases pieces.len() - i,
    {
        proof {
            let head = pieces.deep_view().take(i + 1);
            assert(head.drop_last() =~= pieces.deep_view().take(i as int));
            assert(head.last() == pieces@[i as int]@);
        }
        let ghost before = out.deep_view();
        if !pieces[i].as_str().is_empty() && !same_text(pieces[i].as_str(), ".") {
            out.push(pieces[i].clone());
            assert(out.deep_view() =~= before.push(pieces@[i as int]@));
            assert(out.deep_view() =~= start + named_pieces(pieces.deep_view().take(i + 1)));
        }
        i += 1;
    }
    assert(pieces.deep_view().take(pieces@.len() as int) =~= pieces.deep_view());
    out
}

/// Whether both texts name the same components.
pub fn is_same_place(a: &str, b: &str) -> (r: bool)
    ensures
        r == same_place(a@, b@),
{
    split_path(a).same(&split_path(b))
}

/// Whether `path` is `root` or lies below it.
pub fn is_in(path: &str, root: &str) -> (r: bool)
    ensures
        r == lies_in(path@, root@),
{
    let parts = split_path(path);
    let lead = split_path(root);
    if lead.len() > parts.len() {
        assert(lead.deep_view().len() > parts.deep_view().len());
        return false;
    }
    let mut i: usize = 0;
    while i < lead.len()
        invariant
            i <= lead.len() <= parts.len(),
            parts.deep_view() == components(path@),
            lead.deep_view() == components(root@),
            forall|j: int|
                0 <= j < i ==> (#[trigger] lead.deep_view()[j]) == parts.deep_view()[j],
        decreases lead.len() - i,
    {
        if !lead[i].same(&parts[i]) {
            assert(lead.deep_view()[i as int] != parts.deep_view()[i as int]);
            assert(components(path@).take(components(root@).len() as int)[i as int]
                != components(root@)[i as int]);
            return false;
        }
        i += 1;
    }
    assert(components(path@).take(components(root@).len() as int) =~= components(root@));
    true
}

/// Whether `path` lies below `root`.
pub fn is_below(path: &str, root: &str) -> (r: bool)
    ensures
        r == lies_below(path@, root@),
{
    is_in(path, root) && !is_same_place(path, root)
}

/// `path` taken from the directory `base`.
pub fn join_path(base: &str, path: &str) -> (r: String)
    ensures
        r@ == joined_path(base@, path@),
{
    if absolute(path) || base.is_empty() {
        return path.to_owned();
    }
    let chars = chars_of(base);
    let mut out = base.to_owned();
    if chars[chars.len() - 1] != '/' {
        out.push('/');
    }
    out.push_str(path);
    out
}

proof fn lemma_last_piece(path: Seq<char>)
    ensures
        ({
            let n = behind_last_of(path, '/');
            let pieces = split_on(path, '/');
            &&& 0 <= n <= path.len()
            &&& pieces.len() > 0
            &&& pieces.last() == path.skip(n)
            &&& n > 0 ==> pieces.drop_last() == split_on(path.take(n - 1), '/')
            &&& n == 0 ==> pieces == seq![path]
            &&& n == 0 ==> !is_absolute(path)
        }),
    decreases path.len(),
{
    let n = behind_last_of(path, '/');
    let pieces = split_on(path, '/');
    if path.len() == 0 {
        assert(path =~= Seq::empty());
        assert(path.skip(0) =~= path);
        assert(pieces =~= seq![path]);
    } else {
        let head = path.drop_last();
        lemma_last_piece(head);
        if path.last() == '/' {
            assert(path.skip(n) =~= Seq::empty());
            assert(path.take(n - 1) =~= head);
            assert(pieces.drop_last() =~= split_on(head, '/'));
        } else {
            assert(path.skip(n) =~= head.skip(n).push(path.last()));
            assert(pieces.drop_last() =~= split_on(head, '/').drop_last());
            if n > 0 {
                assert(path.take(n - 1) =~= head.take(n - 1));
            } else {
                assert(path.skip(0) =~= path);
                assert(pieces =~= seq![path]);
            }
        }
    }
}

proof fn lemma_lead(path: Seq<char>)
    ensures
        lead_len(path) <= path.len(),
        lead_len(path) < path.len() ==> lead_len(path) <= behind_last_of(path, '/')
            && lead_len(path) <= without_last(path, lead_len(path)).len() < path.len(),
{
    reveal_strlit(".");
    lemma_last_piece(path);
    if path.len() == 0 {
        assert(split_on(path, '/')[0] =~= Seq::empty());
    }
}

/// Whether a piece of a path names something.
spec fn names_something(piece: Seq<char>) -> bool {
    piece.len() > 0 && piece != "."@
}

proof fn lemma_without_last(path: Seq<char>)
    requires
        lead_len(path) < path.len(),
    ensures
        ({
            let shorter = without_last(path, lead_len(path));
            let names = named_pieces(split_on(path, '/'));
            &&& lead_len(shorter) == lead_len(path)
            &&& is_absolute(shorter) == is_absolute(path)
            &&& path_start(shorter) == path_start(path)
            &&& named_pieces(split_on(shorter, '/')) == if names_something(
                path.skip(behind_last_of(path, '/')),
            ) {
                names.drop_last()
            } else {
                names
            }
            &&& names_something(path.skip(behind_last_of(path, '/'))) ==> names.len() > 0
        }),
{
    reveal_strlit(".");
    lemma_lead(path);
    lemma_last_piece(path);
    let lead = lead_len(path);
    let n = behind_last_of(path, '/');
    let pieces = split_on(path, '/');
    let shorter = without_last(path, lead);
    let empty: Seq<Seq<char>> = Seq::empty();
    assert(named_pieces(empty) =~= empty);
    if n == 0 {
        assert(shorter =~= Seq::<char>::empty());
        assert(pieces.drop_last() =~= empty);
        assert(split_on(shorter, '/').drop_last() =~= empty);
        assert(named_pieces(split_on(shorter, '/')) =~= empty);
        assert(named_pieces(pieces).drop_last() =~= empty || !names_something(path.skip(n)));
    } else {
        let before = path.take(n - 1);
        lemma_last_piece(before);
        assert(pieces[0] == split_on(before, '/')[0]);
        if named_pieces(pieces.drop_last()).push(path.skip(n)) == named_pieces(pieces) {
            assert(named_pieces(pieces).drop_last() =~= named_pieces(pieces.drop_last()));
        }
        if n <= lead {
            assert(n == 1);
            assert(before =~= Seq::<char>::empty());
            if !is_absolute(path) {
                assert(pieces[0] =~= Seq::<char>::empty());
            }
            assert(is_absolute(path));
            assert(shorter =~= seq!['/']);
            assert(shorter.drop_last() =~= before);
            assert(split_on(shorter, '/').drop_last() =~= split_on(before, '/'));
            assert(split_on(shorter, '/').last() =~= Seq::<char>::empty());
        } else {
            assert(shorter =~= before);
            if is_absolute(path) {
                assert(shorter[0] == path[0]);
            }
            if is_absolute(shorter) {
                assert(shorter[0] == path[0]);
            }
        }
    }
}

proof fn lemma_to_last_name(path: Seq<char>, lead: nat)
    requires
        lead == lead_len(path),
    ensures
        ({
            let named = to_last_name(path, lead);
            &&& lead_len(named) == lead
            &&& lead <= named.len() <= path.len()
            &&& is_absolute(named) == is_absolute(path)
            &&& components(named) == components(path)
            &&& path_start(named) == path_start(path)
            &&& named.len() > lead ==> names_something(named.skip(behind_last_of(named, '/')))
        }),
    decreases path.len(),
{
    lemma_lead(path);
    let piece = path.skip(behind_last_of(path, '/'));
    if path.len() > lead && !names_something(piece) {
        lemma_without_last(path);
        lemma_to_last_name(without_last(path, lead), lead);
    }
}

/// The directory of a path has the components of the path but the last, where
/// there is one that can be left out.
pub proof fn directories_lose_the_last_component(path: Seq<char>)
    requires
        components(path).len() > 0,
        components(path) != seq!["/"@],
    ensures
        components(directory_of(path)) == components(path).drop_last(),
{
    reveal_strlit(".");
    reveal_strlit("/");
    let lead = lead_len(path);
    let named = to_last_name(path, lead);
    lemma_to_last_name(path, lead);
    lemma_lead(path);
    if named.len() > lead {
        lemma_without_last(named);
        let shorter = without_last(named, lead);
        lemma_to_last_name(shorter, lead);
        let names = named_pieces(split_on(named, '/'));
        assert((path_start(named) + names).drop_last() =~= path_start(named) + names.drop_last());
    } else {
        lemma_last_piece(named);
        assert(split_on(path, '/').len() > 0) by {
            lemma_last_piece(path);
        }
        let empty: Seq<Seq<char>> = Seq::empty();
        assert(named_pieces(empty) =~= empty);
        if lead == 0 {
            assert(named =~= Seq::<char>::empty());
            assert(split_on(named, '/').drop_last() =~= empty);
            assert(components(named) =~= empty);
            assert(false);
        }
        if is_absolute(path) {
            assert(named =~= seq!['/']);
            assert(named.drop_last() =~= Seq::<char>::empty());
            assert(split_on(named.drop_last(), '/').drop_last() =~= empty);
            assert(split_on(named, '/').drop_last() =~= split_on(named.drop_last(), '/'));
            reveal_with_fuel(named_pieces, 3);
            assert(named_pieces(split_on(named, '/')) =~= empty);
            assert(components(named) =~= seq!["/"@]);
            assert(false);
        }
        let nothing: Seq<char> = Seq::empty();
        assert(split_on(nothing, '/').drop_last() =~= empty);
        assert(components(nothing) =~= empty);
        assert(components(path).drop_last() =~= empty) by {
            assert(behind_last_of(named, '/') == 0 || behind_last_of(named, '/') == 1);
            if behind_last_of(named, '/') == 1 {
                assert(split_on(named, '/')[0] == split_on(named.take(0), '/')[0]);
                assert(named.take(0) =~= nothing);
            }
            assert(split_on(named, '/') =~= seq![named]);
            assert(named == "."@);
            assert(split_on(named, '/').drop_last() =~= empty);
            assert(named_pieces(split_on(named, '/')) =~= empty);
            assert(components(named) =~= seq!["."@]);
        }
    }
}

/// Where a path without its last piece ends.
fn cut_last(chars: &Vec<char>, lead: usize) -> (r: usize)
    requires
        lead < chars@.len(),
    ensures
        chars@.take(r as int) == without_last(chars@, lead as nat),
        lead <= r < chars@.len(),
{
    proof {
        lemma_last_piece(chars@);
    }
    let n: usize = end_of_last(chars, '/');
    if n <= lead {
        lead
    } else {
        n - 1
    }
}

/// A path up to the end of its last name.
fn end_at_name(path: Vec<char>, lead: usize) -> (r: Vec<char>)
    requires
        lead <= path@.len(),
    ensures
        r@ == to_last_name(path@, lead as nat),
        lead <= r@.len() <= path@.len(),
{
    let mut chars = path;
    proof {
        reveal_strlit(".");
    }
    while chars.len() > lead
        invariant
            lead <= chars@.len() <= path@.len(),
            "."@ =~= seq!['.'],
            to_last_name(path@, lead as nat) == to_last_name(chars@, lead as nat),
        decreases chars@.len(),
    {
        let n: usize = end_of_last(&chars, '/');
        let nothing: bool = n == chars.len() || (n + 1 == chars.len() && chars[n] == '.');
        proof {
            lemma_last_piece(chars@);
            let piece = chars@.skip(n as int);
            if n + 1 == chars@.len() && chars@[n as int] == '.' {
                assert(piece =~= "."@);
            }
            if piece == "."@ {
                assert(piece.len() == 1 && piece[0] == chars@[n as int]);
            }
            assert(nothing == (piece.len() == 0 || piece == "."@));
        }
        if !nothing {
            return chars;
        }
        let end: usize = cut_last(&chars, lead);
        let ghost before = chars@;
        chars.truncate(end);
        assert(chars@ =~= before.take(end as int));
    }
    chars
}

/// The directory that a path stands in.
pub fn parent_directory(path: &str) -> (r: String)
    ensures
        r@ == directory_of(path@),
{
    let chars = chars_of(path);
    let pieces = split(path, '/');
    assert(pieces.deep_view()[0] == pieces@[0]@);
    let rooted = absolute(path);
    let lead: usize = if rooted || same_text(pieces[0].as_str(), ".") {
        1
    } else {
        0
    };
    proof {
        reveal_strlit(".");
        reveal_strlit("");
        lemma_lead(path@);
    }
    let named = end_at_name(chars, lead);
    if named.len() > lead {
        let end: usize = cut_last(&named, lead);
        let mut rest = named;
        rest.truncate(end);
        assert(rest@ =~= without_last(named@, lead as nat));
        let out = end_at_name(rest, lead);
        let r = text_of(&out, 0, out.len());
        assert(r@ =~= out@);
        return r;
    }
    if named.len() > 0 && !rooted {
        let r = String::new();
        assert(r@ =~= Seq::<char>::empty());
        return r;
    }
    ".".to_owned()
}

/// The name that a path ends in; nothing for a root, a current or a parent
/// directory.
pub open spec fn file_name(path: Seq<char>) -> Option<Seq<char>> {
    let names = named_pieces(split_on(path, '/'));
    if names.len() == 0 || names.last() == ".."@ {
        None
    } else {
        Some(names.last())
    }
}

/// The extension of the name that a path ends in: what follows its last dot,
/// unless that dot leads the name.
pub open spec fn extension(path: Seq<char>) -> Option<Seq<char>> {
    match file_name(path) {
        Some(name) => if behind_last_of(name, '.') > 1 {
            Some(name.skip(behind_last_of(name, '.')))
        } else {
            None
        },
        None => None,
    }
}

/// The extension of the name that a path ends in.
pub fn path_extension(path: &str) -> (r: Option<String>)
    ensures
        r.deep_view() == extension(path@),
{
    let parts = split_path(path);
    let names: usize = if absolute(path) {
        1
    } else if parts.len() > 0 && same_text(parts[0].as_str(), ".") {
        1
    } else {
        0
    };
    let ghost named = named_pieces(split_on(path@, '/'));
    proof {
        lemma_named_pieces_have_no_dot(split_on(path@, '/'));
        assert(parts.deep_view().len() == parts@.len());
        let all = components(path@);
        if parts@.len() > 0 {
            assert(parts@[0]@ == all[0]);
        }
        if path_start(path@).len() == 0 && named.len() > 0 {
            assert(all[0] == named[0]);
        }
        assert(names == path_start(path@).len());
        assert(parts@.len() == names + named.len());
    }
    if parts.len() <= names {
        return None;
    }
    let last: usize = parts.len() - 1;
    assert(parts@[last as int]@ == components(path@)[last as int]);
    assert(parts@[last as int]@ == named.last());
    if same_text(parts[last].as_str(), "..") {
        return None;
    }
    let chars = chars_of(parts[last].as_str());
    let n: usize = end_of_last(&chars, '.');
    if n <= 1 {
        return None;
    }
    let r = text_of(&chars, n, chars.len());
    assert(r@ =~= named.last().skip(behind_last_of(named.last(), '.')));
    Some(r)
}

proof fn lemma_named_pieces_have_no_dot(pieces: Seq<Seq<char>>)
    ensures
        forall|i: int|
            0 <= i < named_pieces(pieces).len() ==> (#[trigger] named_pieces(pieces)[i]) != "."@
                && named_pieces(pieces)[i].len() > 0,
    decreases pieces.len(),
{
    if pieces.len() > 0 {
        lemma_named_pieces_have_no_dot(pieces.drop_last());
        let head = named_pieces(pieces.drop_last());
        let whole = named_pieces(pieces);
        assert forall|i: int| 0 <= i < whole.len() implies (#[trigger] whole[i]) != "."@
            && whole[i].len() > 0 by {
            if i < head.len() {
                assert(whole[i] == head[i]);
            }
        }
    }
}

/// Lying in a place is reflexive and transitive, and two places that lie in
/// each other are the same.
pub proof fn places_are_ordered(a: Seq<char>, b: Seq<char>, c: Seq<char>)
    ensures
        lies_in(a, a),
        lies_in(a, b) && lies_in(b, c) ==> lies_in(a, c),
        lies_in(a, b) && lies_in(b, a) ==> same_place(a, b),
        lies_in(a, b) ==> components(b).len() <= components(a).len(),
        lies_in(a, b) && components(a).len() == components(b).len() ==> same_place(a, b),
{
    let x = components(a);
    let y = components(b);
    let z = components(c);
    assert(x.take(x.len() as int) =~= x);
    if lies_in(a, b) && lies_in(b, c) {
        assert(x.take(z.len() as int) =~= x.take(y.len() as int).take(z.len() as int));
    }
    if lies_in(a, b) && x.len() == y.len() {
        assert(x =~= y);
    }
    if lies_in(a, b) && lies_in(b, a) {
        assert(x =~= y);
    }
}

/// A text that can name something in a directory.
pub open spec fn is_name(text: Seq<char>) -> bool {
    text.len() > 0 && text != "."@ && forall|i: int| 0 <= i < text.len() ==> text[i] != '/'
}

proof fn lemma_split_behind(head: Seq<char>, piece: Seq<char>)
    requires
        forall|i: int| 0 <= i < piece.len() ==> piece[i] != '/',
    ensures
        split_on(head.push('/') + piece, '/') == split_on(head, '/').push(piece),
    decreases piece.len(),
{
    let whole = head.push('/') + piece;
    if piece.len() == 0 {
        assert(whole =~= head.push('/'));
        assert(whole.drop_last() =~= head);
        assert(piece =~= Seq::empty());
    } else {
        let shorter = piece.drop_last();
        assert(whole.drop_last() =~= head.push('/') + shorter);
        assert(whole.last() == piece.last());
        lemma_split_behind(head, shorter);
        let before = split_on(whole.drop_last(), '/');
        assert(before.last() == shorter);
        assert(shorter.push(piece.last()) =~= piece);
        assert(before.drop_last() =~= split_on(head, '/'));
    }
}

/// What a directory holds lies below it, at one more component, and a place with
/// another name does not.
pub proof fn names_lie_in_their_directory(base: Seq<char>, name: Seq<char>, other: Seq<char>)
    requires
        base.len() > 0,
        is_name(name),
        is_name(other),
        other != name,
    ensures
        components(base.push('/') + name) == components(base).push(name),
        lies_in(base.push('/') + name, base),
        lies_below(base.push('/') + name, base),
        !lies_in(base, base.push('/') + name),
        !lies_in(base.push('/') + name, base.push('/') + other),
        !same_place(base.push('/') + name, base.push('/') + other),
{
    lemma_child(base, name);
    lemma_child(base, other);
    let whole = components(base);
    let child = whole.push(name);
    let sibling = whole.push(other);
    assert(child.take(whole.len() as int) =~= whole);
    assert(child.len() != whole.len());
    assert(child.take(child.len() as int) =~= child);
    assert(child.last() != sibling.last());
}

pub proof fn lemma_child(base: Seq<char>, name: Seq<char>)
    requires
        base.len() > 0,
        is_name(name),
    ensures
        components(base.push('/') + name) == components(base).push(name),
{
    let whole = base.push('/') + name;
    lemma_split_behind(base, name);
    lemma_last_piece(base);
    let pieces = split_on(base, '/');
    assert(whole[0] == base[0]);
    assert(pieces.push(name)[0] == pieces[0]);
    assert(pieces.push(name).drop_last() =~= pieces);
    assert(components(whole) =~= components(base).push(name));
}

/// A path from a directory: an absolute one stands for itself, and any other is
/// set behind the directory with one separator between.
pub proof fn paths_are_joined_by_one_separator(base: Seq<char>, path: Seq<char>)
    ensures
        path.len() > 0 && path[0] == '/' ==> joined_path(base, path) == path,
        base.len() == 0 ==> joined_path(base, path) == path,
        base.len() > 0 && base.last() != '/' && (path.len() == 0 || path[0] != '/')
            ==> joined_path(base, path) == base + seq!['/'] + path,
        base.len() > 0 && base.last() == '/' && (path.len() == 0 || path[0] != '/')
            ==> joined_path(base, path) == base + path,
{
    assert(base.push('/') + path =~= base + seq!['/'] + path);
}

/// The extension of a file is what follows the last dot of its name.
pub proof fn extensions_follow_the_last_dot(base: Seq<char>, stem: Seq<char>, ending: Seq<char>)
    requires
        base.len() > 0,
        stem.len() > 0,
        forall|i: int| 0 <= i < stem.len() ==> stem[i] != '/',
        forall|i: int| 0 <= i < ending.len() ==> ending[i] != '/' && ending[i] != '.',
        stem != "."@ || ending.len() > 0,
    ensures
        extension(base.push('/') + (stem.push('.') + ending)) == Some(ending),
{
    reveal_strlit(".");
    reveal_strlit("..");
    let name = stem.push('.') + ending;
    assert(is_name(name)) by {
        assert("."@.len() == 1);
        assert(name.len() >= 2);
    }
    lemma_split_behind(base, name);
    let pieces = split_on(base, '/');
    assert(pieces.push(name).drop_last() =~= pieces);
    let names = named_pieces(pieces.push(name));
    assert(names.last() == name);
    assert(name != ".."@) by {
        assert(".."@.len() == 2);
        if name.len() == 2 {
            assert(ending.len() == 0);
            assert(name[0] == stem[0]);
            if stem[0] == '.' {
                assert(stem =~= "."@);
            }
            assert(".."@[0] == '.');
        }
    }
    crate::text::lemma_behind_last_of(name, '.', (stem.len() + 1) as int);
    assert(name.skip((stem.len() + 1) as int) =~= ending);
}

pub proof fn lemma_rooted_name(name: Seq<char>)
    requires
        is_name(name),
    ensures
        components(seq!['/'] + name) == seq!["/"@, name],
{
    let nothing: Seq<char> = Seq::empty();
    let whole = seq!['/'] + name;
    assert(nothing.push('/') + name =~= whole);
    lemma_split_behind(nothing, name);
    let pieces = split_on(nothing, '/');
    assert(pieces =~= seq![nothing]);
    let none: Seq<Seq<char>> = Seq::empty();
    assert(pieces.drop_last() =~= none);
    assert(named_pieces(none) =~= none);
    assert(named_pieces(pieces) =~= none);
    assert(pieces.push(name).drop_last() =~= pieces);
    assert(named_pieces(split_on(whole, '/')) =~= seq![name]);
    assert(whole[0] == '/');
    assert(components(whole) =~= seq!["/"@, name]);
}

} // verus!
