use vstd::prelude::*;
use crate::text::{push_char, push_text, text_eq};

verus! {

/// The pieces of a path between its separators ('/'), empty pieces included: "a//b/" has
/// the pieces "a", "", "b" and "".
pub open spec fn pieces(s: Seq<char>) -> Seq<Seq<char>>
    decreases s.len(),
{
    if s.len() == 0 {
        seq![Seq::empty()]
    } else {
        let p = pieces(s.drop_last());
        if s.last() == '/' {
            p.push(Seq::empty())
        } else {
            p.update(p.len() - 1, p.last().push(s.last()))
        }
    }
}

/// Whether the piece at position `i` is a component of the path: empty pieces (repeated
/// or trailing separators, or the root) are not, and a "." is one only as the very first
/// piece.
pub open spec fn keep_piece(q: Seq<char>, i: int) -> bool {
    q.len() > 0 && (q == seq!['.'] ==> i == 0)
}

/// The components among `ps`, joined by single separators.
pub open spec fn join_kept(ps: Seq<Seq<char>>) -> Seq<char>
    decreases ps.len(),
{
    if ps.len() == 0 {
        Seq::empty()
    } else {
        let j = join_kept(ps.drop_last());
        if keep_piece(ps.last(), ps.len() - 1) {
            if j.len() == 0 {
                ps.last()
            } else {
                j + seq!['/'] + ps.last()
            }
        } else {
            j
        }
    }
}

/// The normal form of a path, under which two paths with the same components (as
/// `std::path::Path` compares them on Unix) are one: a leading separator for an absolute
/// path, then the components joined by single separators.  Repeated and trailing
/// separators and "." components other than a leading one are dropped.
pub open spec fn normal_path(s: Seq<char>) -> Seq<char> {
    if s.len() > 0 && s[0] == '/' {
        seq!['/'] + join_kept(pieces(s))
    } else {
        join_kept(pieces(s))
    }
}

/// Whether a text is the single character ".".
fn is_dot(s: &str) -> (r: bool)
    ensures
        r == (s@ == seq!['.']),
{
    if s.unicode_len() == 1 && s.get_char(0) == '.' {
        assert(s@ =~= seq!['.']);
        true
    } else {
        false
    }
}

/// Appends the piece `cur` at position `i` to the joined components when it is one.
fn add_piece(joined: &mut String, cur: &str, first: bool)
    ensures
        final(joined)@ == (if keep_piece(cur@, if first { 0int } else { 1int }) {
            if old(joined)@.len() == 0 {
                cur@
            } else {
                old(joined)@ + seq!['/'] + cur@
            }
        } else {
            old(joined)@
        }),
{
    if cur.unicode_len() > 0 && (first || !is_dot(cur)) {
        if joined.as_str().unicode_len() > 0 {
            push_char(joined, '/');
        }
        push_text(joined, cur);
    }
}

/// The normal form of a path (see [`normal_path`]).
pub fn normalize_path(path: &str) -> (r: String)
    ensures
        r@ == normal_path(path@),
{
    let n = path.unicode_len();
    let mut cur = String::new();
    let mut joined = String::new();
    let ghost mut done: Seq<Seq<char>> = Seq::empty();
    let mut first = true;
    let mut i: usize = 0;
    while i < n
        invariant
            first == (done.len() == 0),
            n == path@.len(),
            i <= n,
            pieces(path@.subrange(0, i as int)) == done.push(cur@),
            joined@ == join_kept(done),
        decreases n - i,
    {
        let c = path.get_char(i);
        proof {
            let s1 = path@.subrange(0, i + 1);
            assert(s1.drop_last() =~= path@.subrange(0, i as int));
            assert(s1.last() == c);
        }
        if c == '/' {
            let ghost before = joined@;
            add_piece(&mut joined, cur.as_str(), first);
            first = false;
            proof {
                let d2 = done.push(cur@);
                assert(d2.drop_last() =~= done);
                assert(d2.last() == cur@);
                assert(keep_piece(cur@, d2.len() - 1) == keep_piece(
                    cur@,
                    if done.len() == 0 { 0int } else { 1int },
                ));
                done = d2;
            }
            cur = String::new();
            proof {
                assert(cur@ =~= Seq::<char>::empty());
            }
        } else {
            let ghost old_cur = cur@;
            push_char(&mut cur, c);
            proof {
                assert(done.push(old_cur).update(done.len() as int, old_cur.push(c)) =~= done.push(cur@));
            }
        }
        i = i + 1;
    }
    proof {
        assert(path@.subrange(0, n as int) =~= path@);
    }
    add_piece(&mut joined, cur.as_str(), first);
    proof {
        let d2 = done.push(cur@);
        assert(d2.drop_last() =~= done);
        assert(d2.last() == cur@);
        assert(keep_piece(cur@, d2.len() - 1) == keep_piece(cur@, if done.len() == 0 { 0int } else { 1int }));
    }
    if n > 0 && path.get_char(0) == '/' {
        let mut r = String::new();
        push_char(&mut r, '/');
        push_text(&mut r, joined.as_str());
        proof {
            assert(r@ =~= seq!['/'] + joined@);
        }
        r
    } else {
        joined
    }
}

/// The components among `ps`, in order.
pub open spec fn kept_pieces(ps: Seq<Seq<char>>) -> Seq<Seq<char>>
    decreases ps.len(),
{
    if ps.len() == 0 {
        Seq::empty()
    } else {
        let k = kept_pieces(ps.drop_last());
        if keep_piece(ps.last(), ps.len() - 1) {
            k.push(ps.last())
        } else {
            k
        }
    }
}

/// A name with no separator, appended after a separator, is one more piece.
pub proof fn lemma_pieces_of_child(s: Seq<char>, x: Seq<char>)
    requires
        forall|i: int| 0 <= i < x.len() ==> x[i] != '/',
    ensures
        pieces(s + seq!['/'] + x) == pieces(s).push(x),
    decreases x.len(),
{
    if x.len() == 0 {
        let t = s + seq!['/'];
        assert(t.drop_last() =~= s);
        assert(s + seq!['/'] + x =~= t);
        assert(x =~= Seq::<char>::empty());
    } else {
        let y = x.drop_last();
        lemma_pieces_of_child(s, y);
        let t = s + seq!['/'] + x;
        assert(t.drop_last() =~= s + seq!['/'] + y);
        assert(t.last() == x.last());
        assert(y.push(x.last()) =~= x);
        assert(pieces(s).push(y).update(pieces(s).len() as int, x) =~= pieces(s).push(x));
    }
}

/// The components of a path with one more name after a separator: that name follows the
/// path's own components.
pub proof fn lemma_components_of_child(s: Seq<char>, x: Seq<char>)
    requires
        s.len() > 0,
        x.len() > 0,
        x != seq!['.'],
        forall|i: int| 0 <= i < x.len() ==> x[i] != '/',
    ensures
        components(s + seq!['/'] + x) == components(s).push(x),
{
    lemma_pieces_of_child(s, x);
    let ps = pieces(s);
    let q = ps.push(x);
    assert(q.drop_last() =~= ps);
    assert(q.last() == x);
    assert(ps.len() > 0) by {
        lemma_pieces_nonempty(s);
    }
    assert(keep_piece(x, q.len() - 1));
    assert((s + seq!['/'] + x)[0] == s[0]);
    if is_rooted(s) {
        assert(seq![seq!['/']] + kept_pieces(ps).push(x) =~= (seq![seq!['/']] + kept_pieces(ps)).push(x));
    }
}

/// A path always has at least one piece.
pub proof fn lemma_pieces_nonempty(s: Seq<char>)
    ensures
        pieces(s).len() > 0,
    decreases s.len(),
{
    if s.len() > 0 {
        lemma_pieces_nonempty(s.drop_last());
    }
}

/// The path starts at the root.
pub open spec fn is_rooted(s: Seq<char>) -> bool {
    s.len() > 0 && s[0] == '/'
}

/// The components of a path as `std::path::Path` sees them on Unix: "/" for the root of an
/// absolute path, then the pieces between separators, leaving out empty pieces and "."
/// pieces other than a leading one.
pub open spec fn components(s: Seq<char>) -> Seq<Seq<char>> {
    if is_rooted(s) {
        seq![seq!['/']] + kept_pieces(pieces(s))
    } else {
        kept_pieces(pieces(s))
    }
}

/// The final component of a path when it names a file or directory (not the root, "." or
/// ".."), as `Path::file_name` gives it.
pub open spec fn file_name(s: Seq<char>) -> Option<Seq<char>> {
    let c = components(s);
    if c.len() > 0 && c.last() != seq!['/'] && c.last() != seq!['.'] && c.last() != seq!['.', '.'] {
        Some(c.last())
    } else {
        None
    }
}

/// The position of the last '.' of a text, or -1 when it has none.
pub open spec fn last_dot(s: Seq<char>) -> int
    decreases s.len(),
{
    if s.len() == 0 {
        -1
    } else if s.last() == '.' {
        s.len() - 1
    } else {
        last_dot(s.drop_last())
    }
}

/// Where the last '.' of a text stands: a '.' at that position and none after it, or no
/// '.' at all.
pub proof fn lemma_last_dot(s: Seq<char>)
    ensures
        -1 <= last_dot(s) < s.len(),
        last_dot(s) >= 0 ==> s[last_dot(s)] == '.',
        forall|j: int| last_dot(s) < j < s.len() ==> s[j] != '.',
    decreases s.len(),
{
    if s.len() > 0 && s.last() != '.' {
        lemma_last_dot(s.drop_last());
        assert forall|j: int| last_dot(s) < j < s.len() implies s[j] != '.' by {
            if j < s.len() - 1 {
                assert(s.drop_last()[j] == s[j]);
            }
        }
        if last_dot(s) >= 0 {
            assert(s.drop_last()[last_dot(s)] == s[last_dot(s)]);
        }
    }
}

/// The extension of a file name: the text after its last '.', when that '.' is not its
/// first character.
pub open spec fn name_extension(f: Seq<char>) -> Option<Seq<char>> {
    if last_dot(f) > 0 {
        Some(f.subrange(last_dot(f) + 1, f.len() as int))
    } else {
        None
    }
}

/// The stem of a file name: the text before its last '.', when that '.' is not its first
/// character; the whole name otherwise.
pub open spec fn name_stem(f: Seq<char>) -> Seq<char> {
    if last_dot(f) > 0 {
        f.subrange(0, last_dot(f))
    } else {
        f
    }
}

/// Appends the piece `cur` to the component list when it is a component.
fn add_component(out: &mut Vec<String>, cur: String, first: bool)
    ensures
        final(out)@.map_values(|x: String| x@) == (if keep_piece(cur@, if first { 0int } else { 1int }) {
            old(out)@.map_values(|x: String| x@).push(cur@)
        } else {
            old(out)@.map_values(|x: String| x@)
        }),
{
    if cur.as_str().unicode_len() > 0 && (first || !is_dot(cur.as_str())) {
        let ghost before = out@;
        out.push(cur);
        proof {
            assert(out@.map_values(|x: String| x@) =~= before.map_values(|x: String| x@).push(cur@));
        }
    }
}

/// The components of a path (see [`components`]).
pub fn path_components(path: &str) -> (r: Vec<String>)
    ensures
        r@.map_values(|x: String| x@) == components(path@),
{
    let n = path.unicode_len();
    let mut out: Vec<String> = Vec::new();
    let rooted = n > 0 && path.get_char(0) == '/';
    if rooted {
        let mut root = String::new();
        push_char(&mut root, '/');
        out.push(root);
    }
    let ghost prefix = out@.map_values(|x: String| x@);
    proof {
        if rooted {
            assert(prefix =~= seq![seq!['/']]);
        } else {
            assert(prefix =~= Seq::<Seq<char>>::empty());
        }
    }
    let mut cur = String::new();
    let ghost mut done: Seq<Seq<char>> = Seq::empty();
    let mut first = true;
    let mut i: usize = 0;
    while i < n
        invariant
            first == (done.len() == 0),
            n == path@.len(),
            i <= n,
            rooted == is_rooted(path@),
            prefix == (if rooted { seq![seq!['/']] } else { Seq::<Seq<char>>::empty() }),
            pieces(path@.subrange(0, i as int)) == done.push(cur@),
            out@.map_values(|x: String| x@) == prefix + kept_pieces(done),
        decreases n - i,
    {
        let c = path.get_char(i);
        proof {
            let s1 = path@.subrange(0, i + 1);
            assert(s1.drop_last() =~= path@.subrange(0, i as int));
            assert(s1.last() == c);
        }
        if c == '/' {
            let ghost cv = cur@;
            add_component(&mut out, cur, first);
            first = false;
            proof {
                let d2 = done.push(cv);
                assert(d2.drop_last() =~= done);
                assert(d2.last() == cv);
                assert(keep_piece(cv, d2.len() - 1) == keep_piece(cv, if done.len() == 0 { 0int } else { 1int }));
                if keep_piece(cv, d2.len() - 1) {
                    assert(prefix + kept_pieces(d2) =~= (prefix + kept_pieces(done)).push(cv));
                }
                done = d2;
            }
            cur = String::new();
            proof {
                assert(cur@ =~= Seq::<char>::empty());
            }
        } else {
            let ghost old_cur = cur@;
            push_char(&mut cur, c);
            proof {
                assert(done.push(old_cur).update(done.len() as int, old_cur.push(c)) =~= done.push(cur@));
            }
        }
        i = i + 1;
    }
    proof {
        assert(path@.subrange(0, n as int) =~= path@);
    }
    let ghost cv = cur@;
    add_component(&mut out, cur, first);
    proof {
        let d2 = done.push(cv);
        assert(d2.drop_last() =~= done);
        assert(d2.last() == cv);
        assert(keep_piece(cv, d2.len() - 1) == keep_piece(cv, if done.len() == 0 { 0int } else { 1int }));
        if keep_piece(cv, d2.len() - 1) {
            assert(prefix + kept_pieces(d2) =~= (prefix + kept_pieces(done)).push(cv));
        }
    }
    out
}

/// The final component of a path when it names a file or directory (see [`file_name`]).
pub fn file_name_of(path: &str) -> (r: Option<String>)
    ensures
        match r {
            Some(f) => file_name(path@) == Some(f@),
            None => file_name(path@) is None,
        },
{
    let comps = path_components(path);
    let ghost v = comps@.map_values(|x: String| x@);
    let n = comps.len();
    if n == 0 {
        return None;
    }
    let last = &comps[n - 1];
    proof {
        assert(v.last() == last@);
        reveal_strlit("/");
        reveal_strlit(".");
        reveal_strlit("..");
        assert("/"@ =~= seq!['/']);
        assert("."@ =~= seq!['.']);
        assert(".."@ =~= seq!['.', '.']);
    }
    if text_eq(last.as_str(), "/") || text_eq(last.as_str(), ".") || text_eq(last.as_str(), "..") {
        None
    } else {
        Some(last.clone())
    }
}

/// The position of the last '.' of a text (see [`last_dot`]).
fn last_dot_of(s: &str) -> (r: Option<usize>)
    ensures
        match r {
            Some(d) => last_dot(s@) == d as int && d < s@.len(),
            None => last_dot(s@) == -1,
        },
{
    let n = s.unicode_len();
    let mut found: Option<usize> = None;
    let mut i: usize = 0;
    while i < n
        invariant
            n == s@.len(),
            i <= n,
            match found {
                Some(d) => last_dot(s@.subrange(0, i as int)) == d as int && d < i,
                None => last_dot(s@.subrange(0, i as int)) == -1,
            },
        decreases n - i,
    {
        proof {
            let s1 = s@.subrange(0, i + 1);
            assert(s1.drop_last() =~= s@.subrange(0, i as int));
            assert(s1.last() == s@[i as int]);
        }
        if s.get_char(i) == '.' {
            found = Some(i);
        }
        i = i + 1;
    }
    proof {
        assert(s@.subrange(0, n as int) =~= s@);
    }
    found
}

/// The characters of `s` from position `from` up to `to`.
fn sub_text(s: &str, from: usize, to: usize) -> (r: String)
    requires
        from <= to <= s@.len(),
    ensures
        r@ == s@.subrange(from as int, to as int),
{
    let mut r = String::new();
    let mut i = from;
    while i < to
        invariant
            from <= i <= to,
            to <= s@.len(),
            r@ == s@.subrange(from as int, i as int),
        decreases to - i,
    {
        push_char(&mut r, s.get_char(i));
        proof {
            assert(r@ =~= s@.subrange(from as int, i + 1));
        }
        i = i + 1;
    }
    r
}

/// The extension of a file name (see [`name_extension`]).
pub fn extension_of_name(f: &str) -> (r: Option<String>)
    ensures
        match r {
            Some(e) => name_extension(f@) == Some(e@),
            None => name_extension(f@) is None,
        },
{
    let n = f.unicode_len();
    match last_dot_of(f) {
        Some(d) => if d > 0 {
            Some(sub_text(f, d + 1, n))
        } else {
            None
        },
        None => None,
    }
}

/// The stem of a file name (see [`name_stem`]).
pub fn stem_of_name(f: &str) -> (r: String)
    ensures
        r@ == name_stem(f@),
{
    match last_dot_of(f) {
        Some(d) => if d > 0 {
            sub_text(f, 0, d)
        } else {
            sub_text(f, 0, f.unicode_len())
        },
        None => sub_text(f, 0, f.unicode_len()),
    }
}

} // verus!
