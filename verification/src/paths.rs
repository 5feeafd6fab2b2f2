//! Unix paths as texts.
use vstd::prelude::*;
use crate::text::{chars_of, find_char, index_of_char, lemma_index_of_char, same, text_of};

verus! {

/// `base` extended by `rest`: an absolute `rest` stands alone, and a separator comes between the
/// two unless `base` is empty or ends in one.
pub open spec fn joined_path(base: Seq<char>, rest: Seq<char>) -> Seq<char> {
    if rest.len() > 0 && rest[0] == '/' {
        rest
    } else if base.len() == 0 || base.last() == '/' {
        base + rest
    } else {
        base.push('/') + rest
    }
}

/// `base` extended by `rest`.
pub fn join_path(base: &str, rest: &str) -> (r: String)
    ensures
        r@ == joined_path(base@, rest@),
{
    let b = chars_of(base);
    let t = chars_of(rest);
    if t.len() > 0 && t[0] == '/' {
        return rest.to_owned();
    }
    let mut out = base.to_owned();
    if b.len() > 0 && b[b.len() - 1] != '/' {
        out.push('/');
    }
    out.append(rest);
    assert(out@ =~= joined_path(base@, rest@));
    out
}

/// The pieces of a text between the separators `sep`; a text without one is its only piece.
pub open spec fn pieces(s: Seq<char>, sep: char) -> Seq<Seq<char>>
    decreases s.len(),
    via pieces_shrink
{
    let i = index_of_char(s, sep);
    if i >= s.len() {
        seq![s]
    } else {
        seq![s.take(i)] + pieces(s.skip(i + 1), sep)
    }
}

#[via_fn]
proof fn pieces_shrink(s: Seq<char>, sep: char) {
    lemma_index_of_char(s, sep);
}

/// Every text has a piece.
pub proof fn lemma_pieces_some(s: Seq<char>, sep: char)
    ensures
        pieces(s, sep).len() > 0,
{
}

/// The texts of some strings.
pub open spec fn texts(v: Seq<String>) -> Seq<Seq<char>> {
    v.map_values(|s: String| s@)
}

/// The pieces of a text between the separators `sep`.
pub fn split(s: &str, sep: char) -> (r: Vec<String>)
    ensures
        texts(r@) == pieces(s@, sep),
{
    let v = chars_of(s);
    let mut out: Vec<String> = Vec::new();
    let mut from: usize = 0;
    assert(v@.skip(0) =~= s@);
    assert(texts(out@) + pieces(s@, sep) =~= pieces(s@, sep));
    loop
        invariant
            from <= v@.len(),
            texts(out@) + pieces(v@.skip(from as int), sep) == pieces(s@, sep),
        decreases v@.len() - from,
    {
        let i: usize = find_char(&v, sep, from);
        let ghost rest = v@.skip(from as int);
        let ghost before = texts(out@);
        proof {
            lemma_index_of_char(rest, sep);
        }
        out.push(text_of(&v, from, i));
        if i == v.len() {
            proof {
                assert(v@.subrange(from as int, i as int) =~= rest);
                assert(texts(out@) =~= before + seq![rest]);
                assert(pieces(rest, sep) == seq![rest]);
            }
            return out;
        }
        proof {
            assert(v@.subrange(from as int, i as int) =~= rest.take(i - from));
            assert(rest.skip(i - from + 1) =~= v@.skip(i + 1));
            assert(texts(out@) =~= before + seq![rest.take(i - from)]);
            assert(texts(out@) + pieces(v@.skip(i + 1), sep) =~= before + pieces(rest, sep));
        }
        from = i + 1;
    }
}

/// Whether a piece of a path counts: an empty one does not, nor a `.` unless it comes first.
pub open spec fn piece_counts(piece: Seq<char>, first: bool) -> bool {
    piece.len() > 0 && (piece != "."@ || first)
}

/// The pieces of a path that count.
pub open spec fn counting_pieces(all: Seq<Seq<char>>) -> Seq<Seq<char>>
    decreases all.len(),
{
    if all.len() == 0 {
        Seq::empty()
    } else if piece_counts(all.last(), all.len() == 1) {
        counting_pieces(all.drop_last()).push(all.last())
    } else {
        counting_pieces(all.drop_last())
    }
}

/// The components of a path after its root.
pub open spec fn path_components(path: Seq<char>) -> Seq<Seq<char>> {
    counting_pieces(pieces(path, '/'))
}

/// Whether a component is a name, and not `.` or `..`.
pub open spec fn is_name(component: Seq<char>) -> bool {
    component != "."@ && component != ".."@
}

/// Whether a path begins at the root.
pub open spec fn is_absolute(path: Seq<char>) -> bool {
    path.len() > 0 && path[0] == '/'
}

/// Components with a separator between each two.
pub open spec fn slash_joined(components: Seq<Seq<char>>) -> Seq<char>
    decreases components.len(),
{
    if components.len() == 0 {
        Seq::empty()
    } else if components.len() == 1 {
        components[0]
    } else {
        slash_joined(components.drop_last()) + "/"@ + components.last()
    }
}

/// The path with these components.
pub open spec fn path_text(absolute: bool, components: Seq<Seq<char>>) -> Seq<char> {
    (if absolute {
        "/"@
    } else {
        Seq::empty()
    }) + slash_joined(components)
}

/// The components of a path after its root.
pub fn components(path: &str) -> (r: Vec<String>)
    ensures
        texts(r@) == path_components(path@),
{
    let all = split(path, '/');
    let ghost seen = texts(all@);
    let mut out: Vec<String> = Vec::new();
    let mut i: usize = 0;
    assert(texts(out@) =~= counting_pieces(seen.take(0)));
    while i < all.len()
        invariant
            i <= all@.len(),
            seen == texts(all@),
            texts(out@) == counting_pieces(seen.take(i as int)),
        decreases all@.len() - i,
    {
        let piece = all[i].as_str();
        let ghost more = seen.take(i + 1);
        assert(more.drop_last() =~= seen.take(i as int));
        assert(more.last() == piece@);
        if !piece.is_empty() && (!same(piece, ".") || i == 0) {
            let ghost before = texts(out@);
            out.push(piece.to_owned());
            assert(texts(out@) =~= before.push(piece@));
        }
        i = i + 1;
    }
    assert(seen.take(i as int) =~= seen);
    out
}

/// Between two texts a separator parts their pieces.
proof fn lemma_pieces_of_both(a: Seq<char>, b: Seq<char>, sep: char)
    ensures
        pieces(a.push(sep) + b, sep) == pieces(a, sep) + pieces(b, sep),
    decreases a.len(),
{
    let s = a.push(sep) + b;
    let i = index_of_char(a, sep);
    let k = index_of_char(s, sep);
    lemma_index_of_char(a, sep);
    lemma_index_of_char(s, sep);
    assert(s[a.len() as int] == sep);
    assert(k == i) by {
        if k < i {
            assert(s[k] == a[k]);
        }
        if i < k {
            assert(s[i] == sep);
        }
    }
    assert(s.take(i) =~= a.take(i));
    if i == a.len() {
        assert(a.take(i) =~= a);
        assert(s.skip(i + 1) =~= b);
    } else {
        assert(s.skip(i + 1) =~= a.skip(i + 1).push(sep) + b);
        lemma_pieces_of_both(a.skip(i + 1), b, sep);
        assert(pieces(s, sep) =~= pieces(a, sep) + pieces(b, sep));
    }
}

proof fn lemma_pieces_hold_no_separator(s: Seq<char>, sep: char, k: int)
    requires
        0 <= k < pieces(s, sep).len(),
    ensures
        !pieces(s, sep)[k].contains(sep),
    decreases s.len(),
{
    let i = index_of_char(s, sep);
    lemma_index_of_char(s, sep);
    if i < s.len() {
        if k > 0 {
            lemma_pieces_hold_no_separator(s.skip(i + 1), sep, k - 1);
        }
    }
}

proof fn lemma_counting_are_pieces(all: Seq<Seq<char>>, k: int)
    requires
        0 <= k < counting_pieces(all).len(),
    ensures
        all.contains(counting_pieces(all)[k]),
        counting_pieces(all)[k].len() > 0,
    decreases all.len(),
{
    if all.len() > 0 {
        let before = counting_pieces(all.drop_last());
        if k < before.len() {
            lemma_counting_are_pieces(all.drop_last(), k);
            let j = choose|j: int| 0 <= j < all.len() - 1 && all.drop_last()[j] == before[k];
            assert(all[j] == before[k]);
        } else {
            assert(all[all.len() - 1] == counting_pieces(all)[k]);
        }
    }
}

/// The last component of a path is not empty and holds no separator.
pub proof fn lemma_last_component(path: Seq<char>)
    requires
        path_components(path).len() > 0,
    ensures
        path_components(path).last().len() > 0,
        forall|i: int|
            0 <= i < path_components(path).last().len() ==> #[trigger] path_components(
                path,
            ).last()[i] != '/',
{
    let all = pieces(path, '/');
    let last = path_components(path).last();
    lemma_counting_are_pieces(all, path_components(path).len() - 1);
    let k = choose|k: int| 0 <= k < all.len() && all[k] == last;
    lemma_pieces_hold_no_separator(path, '/', k);
    assert forall|i: int| 0 <= i < last.len() implies #[trigger] last[i] != '/' by {
        assert(last[i] == '/' ==> last.contains('/'));
    }
}

/// A path that was extended by a name has that name as one more component.
pub proof fn lemma_join_adds_component(base: Seq<char>, name: Seq<char>)
    requires
        name.len() > 0,
        name != "."@,
        forall|i: int| 0 <= i < name.len() ==> #[trigger] name[i] != '/',
    ensures
        path_components(joined_path(base, name)) == path_components(base).push(name),
{
    lemma_index_of_char(name, '/');
    assert(pieces(name, '/') =~= seq![name]);
    let none = Seq::<char>::empty();
    lemma_index_of_char(none, '/');
    assert(pieces(none, '/') =~= seq![none]);
    assert(counting_pieces(Seq::<Seq<char>>::empty()) =~= Seq::<Seq<char>>::empty());
    if base.len() == 0 {
        assert(base =~= none);
        assert(base + name =~= name);
        assert(seq![name].drop_last() =~= Seq::<Seq<char>>::empty());
        assert(seq![none].drop_last() =~= Seq::<Seq<char>>::empty());
        assert(path_components(base) =~= Seq::<Seq<char>>::empty());
    } else {
        let stem = if base.last() == '/' {
            base.drop_last()
        } else {
            base
        };
        let before = pieces(stem, '/');
        lemma_pieces_of_both(stem, name, '/');
        assert(joined_path(base, name) =~= stem.push('/') + name);
        assert((before + seq![name]).drop_last() =~= before);
        if base.last() == '/' {
            lemma_pieces_of_both(stem, none, '/');
            assert(stem.push('/') + none =~= base);
            assert((before + seq![none]).drop_last() =~= before);
        }
    }
}

/// The path with the first `n` of these components.
pub fn render_path(absolute: bool, components: &Vec<String>, n: usize) -> (r: String)
    requires
        n <= components@.len(),
    ensures
        r@ == path_text(absolute, texts(components@).take(n as int)),
{
    let mut out = String::new();
    if absolute {
        out.append("/");
    }
    let ghost root = out@;
    let ghost all = texts(components@);
    let mut i: usize = 0;
    assert(root =~= if absolute {
        "/"@
    } else {
        Seq::empty()
    });
    assert(out@ =~= root + slash_joined(all.take(0)));
    while i < n
        invariant
            i <= n <= components@.len(),
            all == texts(components@),
            out@ == root + slash_joined(all.take(i as int)),
        decreases n - i,
    {
        if i > 0 {
            out.append("/");
        }
        out.append(components[i].as_str());
        proof {
            let more = all.take(i + 1);
            assert(more.drop_last() =~= all.take(i as int));
            assert(more.last() == components@[i as int]@);
            assert(out@ =~= root + slash_joined(more));
        }
        i = i + 1;
    }
    out
}

proof fn lemma_components_of_components(path: Seq<char>, k: int)
    requires
        0 <= k < path_components(path).len(),
    ensures
        path_components(path)[k].len() > 0,
        forall|i: int|
            0 <= i < path_components(path)[k].len() ==> #[trigger] path_components(path)[k][i]
                != '/',
{
    let all = pieces(path, '/');
    let part = path_components(path)[k];
    lemma_counting_are_pieces(all, k);
    let j = choose|j: int| 0 <= j < all.len() && all[j] == part;
    lemma_pieces_hold_no_separator(path, '/', j);
    assert forall|i: int| 0 <= i < part.len() implies #[trigger] part[i] != '/' by {
        assert(part[i] == '/' ==> part.contains('/'));
    }
}

proof fn lemma_single_dot_comes_first(all: Seq<Seq<char>>, k: int)
    requires
        0 <= k < counting_pieces(all).len(),
        counting_pieces(all)[k] == "."@,
    ensures
        k == 0,
        all.len() > 0,
        all[0] == "."@,
    decreases all.len(),
{
    if all.len() > 0 {
        let before = counting_pieces(all.drop_last());
        if k < before.len() {
            lemma_single_dot_comes_first(all.drop_last(), k);
        } else {
            assert(all.len() == 1);
            assert(all.drop_last() =~= Seq::<Seq<char>>::empty());
        }
    }
}

proof fn lemma_absolute_has_no_dot(path: Seq<char>, k: int)
    requires
        is_absolute(path),
        0 <= k < path_components(path).len(),
    ensures
        path_components(path)[k] != "."@,
{
    reveal_strlit(".");
    let all = pieces(path, '/');
    lemma_index_of_char(path, '/');
    assert(index_of_char(path, '/') == 0);
    assert(all[0] =~= path.take(0));
    if path_components(path)[k] == "."@ {
        lemma_single_dot_comes_first(all, k);
        assert(all[0].len() == 0);
    }
}

proof fn lemma_path_text_components(path: Seq<char>, n: int)
    requires
        0 <= n <= path_components(path).len(),
    ensures
        path_components(path_text(is_absolute(path), path_components(path).take(n)))
            == path_components(path).take(n),
        n == 0 && !is_absolute(path) ==> path_text(
            is_absolute(path),
            path_components(path).take(n),
        ).len() == 0,
        n > 0 ==> path_text(is_absolute(path), path_components(path).take(n)).len() > 0
            && path_text(is_absolute(path), path_components(path).take(n)).last() != '/',
    decreases n,
{
    reveal_strlit("/");
    reveal_strlit(".");
    let all = path_components(path);
    let root = if is_absolute(path) {
        "/"@
    } else {
        Seq::empty()
    };
    let text = path_text(is_absolute(path), all.take(n));
    if n == 0 {
        assert(all.take(0) =~= Seq::<Seq<char>>::empty());
        assert(text =~= root);
        let none = Seq::<char>::empty();
        lemma_index_of_char(none, '/');
        assert(pieces(none, '/') =~= seq![none]);
        assert(seq![none].drop_last() =~= Seq::<Seq<char>>::empty());
        assert(counting_pieces(Seq::<Seq<char>>::empty()) =~= Seq::<Seq<char>>::empty());
        assert(counting_pieces(seq![none]) =~= Seq::<Seq<char>>::empty());
        if is_absolute(path) {
            lemma_pieces_of_both(none, none, '/');
            assert(none.push('/') + none =~= "/"@);
            let two = seq![none] + seq![none];
            assert(two.drop_last() =~= seq![none]);
            assert(path_components("/"@) =~= Seq::<Seq<char>>::empty());
        } else {
            assert(text =~= none);
        }
    } else {
        let before = path_text(is_absolute(path), all.take(n - 1));
        let part = all[n - 1];
        lemma_path_text_components(path, n - 1);
        lemma_components_of_components(path, n - 1);
        assert(all.take(n).drop_last() =~= all.take(n - 1));
        assert(all.take(n).last() == part);
        if n == 1 {
            assert(all.take(0) =~= Seq::<Seq<char>>::empty());
            assert(before =~= root);
            assert(text =~= root + part);
        } else {
            assert(text =~= before + "/"@ + part);
        }
        assert(text =~= joined_path(before, part));
        assert(text.last() == part.last());
        if part == "."@ {
            lemma_single_dot_comes_first(pieces(path, '/'), n - 1);
            if is_absolute(path) {
                lemma_absolute_has_no_dot(path, 0);
            }
            assert(text =~= part);
            lemma_index_of_char(part, '/');
            assert(pieces(part, '/') =~= seq![part]);
            assert(seq![part].drop_last() =~= Seq::<Seq<char>>::empty());
            assert(counting_pieces(Seq::<Seq<char>>::empty()) =~= Seq::<Seq<char>>::empty());
            assert(counting_pieces(seq![part]) =~= seq![part]);
            assert(all.take(1) =~= seq![part]);
        } else {
            lemma_join_adds_component(before, part);
            assert(all.take(n - 1).push(part) =~= all.take(n));
        }
    }
}

/// The text of a path without its last components has the others as its components.
pub proof fn law_path_text_is_faithful(path: Seq<char>, n: int)
    requires
        0 <= n <= path_components(path).len(),
    ensures
        path_components(path_text(is_absolute(path), path_components(path).take(n)))
            == path_components(path).take(n),
{
    lemma_path_text_components(path, n);
}

/// Paths are cut at slashes: a name that was joined to a path is its last component, whatever the
/// path, and an absolute one stands alone.
pub proof fn law_join(base: Seq<char>, name: Seq<char>)
    requires
        name.len() > 0,
        name != "."@,
        forall|i: int| 0 <= i < name.len() ==> #[trigger] name[i] != '/',
    ensures
        path_components(joined_path(base, name)) == path_components(base).push(name),
        joined_path(base, seq!['/'] + name) == seq!['/'] + name,
        base.len() > 0 && base.last() != '/' ==> joined_path(base, name) == base + seq!['/'] + name,
        joined_path(Seq::empty(), name) == name,
{
    lemma_join_adds_component(base, name);
    assert(joined_path(Seq::empty(), name) =~= name);
    if base.len() > 0 && base.last() != '/' {
        assert(base.push('/') + name =~= base + seq!['/'] + name);
    }
}

/// The last piece of a text is what follows its last separator.
pub proof fn law_last_piece(before: Seq<char>, last: Seq<char>, sep: char)
    requires
        !last.contains(sep),
    ensures
        pieces(before.push(sep) + last, sep).last() == last,
        pieces(last, sep) == seq![last],
        pieces(before.push(sep) + last, sep) == pieces(before, sep) + seq![last],
{
    lemma_pieces_of_both(before, last, sep);
    lemma_index_of_char(last, sep);
    let i = index_of_char(last, sep);
    if i < last.len() {
        assert(last.contains(last[i]));
    }
    assert(pieces(last, sep) =~= seq![last]);
}

/// A slash at the end of a path, and a `.` that does not come first, add no component; a path that
/// is empty or the root alone has none.
pub proof fn law_what_adds_no_component(path: Seq<char>)
    ensures
        path_components(path.push('/')) == path_components(path),
        path.len() > 0 ==> path_components(path + seq!['/', '.']) == path_components(path),
        path_components(Seq::empty()) == Seq::<Seq<char>>::empty(),
        path_components(seq!['/']) == Seq::<Seq<char>>::empty(),
        path_components(seq!['.']) == seq![seq!['.']],
{
    reveal_strlit(".");
    assert("."@ =~= seq!['.']);
    let none = Seq::<char>::empty();
    lemma_pieces_of_both(path, none, '/');
    assert(path.push('/') + none =~= path.push('/'));
    assert(pieces(none, '/') =~= seq![none]);
    let p = pieces(path, '/');
    assert((p + seq![none]).drop_last() =~= p);
    assert((p + seq![none]).last() == none);
    let dot = seq!['.'];
    lemma_index_of_char(dot, '/');
    if index_of_char(dot, '/') < dot.len() {
        assert(dot[index_of_char(dot, '/')] == '/');
    }
    assert(pieces(dot, '/') =~= seq![dot]);
    lemma_pieces_of_both(path, dot, '/');
    assert(path.push('/') + dot =~= path + seq!['/', '.']);
    lemma_pieces_some(path, '/');
    assert((p + seq![dot]).drop_last() =~= p);
    assert((p + seq![dot]).last() == dot);
    assert(counting_pieces(Seq::<Seq<char>>::empty()) =~= Seq::<Seq<char>>::empty());
    assert(seq![none].drop_last() =~= Seq::<Seq<char>>::empty());
    assert(path_components(none) =~= Seq::<Seq<char>>::empty());
    lemma_pieces_of_both(none, none, '/');
    assert(none.push('/') + none =~= seq!['/']);
    let two = pieces(none, '/') + pieces(none, '/');
    assert(two.drop_last() =~= seq![none]);
    assert(two.last() == none);
    assert(path_components(seq!['/']) =~= Seq::<Seq<char>>::empty());
    assert(seq![dot].drop_last() =~= Seq::<Seq<char>>::empty());
    assert(path_components(dot) =~= seq![dot]);
}

/// How components are written: with a slash between each two, and one before the first if the path
/// is absolute.
pub proof fn law_components_written(absolute: bool, components: Seq<Seq<char>>, name: Seq<char>)
    ensures
        path_text(false, Seq::empty()) == Seq::<char>::empty(),
        path_text(true, Seq::empty()) == seq!['/'],
        path_text(false, seq![name]) == name,
        path_text(true, seq![name]) == seq!['/'] + name,
        components.len() > 0 ==> path_text(absolute, components.push(name)) == path_text(
            absolute,
            components,
        ) + seq!['/'] + name,
{
    reveal_strlit("/");
    assert("/"@ =~= seq!['/']);
    assert(slash_joined(seq![name]) == name);
    assert(Seq::<char>::empty() + name =~= name);
    assert("/"@ + Seq::<char>::empty() =~= seq!['/']);
    assert(components.push(name).drop_last() =~= components);
    if components.len() > 0 {
        assert(path_text(absolute, components.push(name)) =~= path_text(absolute, components)
            + seq!['/'] + name);
    }
}

/// A path that ends in a slash is joined without another, and nothing that is joined adds a slash.
pub proof fn law_join_at_slash(base: Seq<char>, rest: Seq<char>)
    requires
        rest.len() == 0 || rest[0] != '/',
    ensures
        joined_path(base.push('/'), rest) == base + seq!['/'] + rest,
        base.len() > 0 && base.last() != '/' ==> joined_path(base, Seq::empty()) == base.push('/'),
        is_absolute(seq!['/'] + rest),
        !is_absolute(rest),
{
    assert(base.push('/') + rest =~= base + seq!['/'] + rest);
    assert(base.push('/') + Seq::<char>::empty() =~= base.push('/'));
}

/// The texts of some strings are those of each, in their order.
pub proof fn law_texts_of_strings(v: Seq<String>, i: int)
    requires
        0 <= i < v.len(),
    ensures
        texts(v).len() == v.len(),
        texts(v)[i] == v[i]@,
{
}

/// A component is a name unless it stands for a directory itself or the one above it.
pub proof fn law_which_components_are_names(component: Seq<char>)
    ensures
        is_name(component) <==> component != seq!['.'] && component != seq!['.', '.'],
{
    reveal_strlit(".");
    reveal_strlit("..");
    assert("."@ =~= seq!['.']);
    assert(".."@ =~= seq!['.', '.']);
}

} // verus!
