//! Character-vector string building.
//!
//! Rendered editor scripts are assembled as `Vec<char>` so that every step
//! has an exact sequence-level contract, and turned into `String` only at
//! the crate boundary.

use vstd::prelude::*;

use vstd::std_specs::iter::IteratorSpec;

verus! {

/// Collects a string's characters, in order.
pub fn str_chars(s: &str) -> (r: Vec<char>)
    ensures
        r@ == s@,
{
    broadcast use vstd::string::axiom_spec_iter;
    broadcast use vstd::string::next_postcondition;

    let mut r: Vec<char> = Vec::new();
    let mut it = s.chars();
    proof {
        assert(it.remaining() =~= s@);
        assert(r@ + it.remaining() =~= s@);
    }
    loop
        invariant
            it.obeys_prophetic_iter_laws(),
            it.decrease() is Some,
            r@ + it.remaining() == s@,
        ensures
            r@ == s@,
        decreases it.decrease()->0,
    {
        let ghost prev = it.remaining();
        match it.next() {
            Option::Some(c) => {
                proof {
                    assert(prev.len() > 0) by {
                        if prev.len() == 0 {
                            assert(false);
                        }
                    }
                    assert(c == prev[0]);
                    assert(it.remaining() == prev.drop_first());
                    assert(r@.push(c) + prev.drop_first() =~= r@ + prev);
                }
                r.push(c);
            },
            Option::None => {
                proof {
                    assert(prev.len() == 0) by {
                        if prev.len() > 0 {
                            assert(false);
                        }
                    }
                    assert(r@ + prev =~= r@);
                }
                break ;
            },
        }
    }
    r
}

/// Relies on `String::push`: pushing a character appends exactly that
/// character; the loop appends each element of `v` in order.
#[verifier::external_body]
pub fn chars_to_string(v: &Vec<char>) -> (r: String)
    ensures
        r@ == v@,
{
    let mut r = String::new();
    for c in v.iter() {
        r.push(*c);
    }
    r
}

/// Appends the characters of `s` to `out`.
pub fn push_str(out: &mut Vec<char>, s: &str)
    ensures
        final(out)@ == old(out)@ + s@,
{
    let mut v = str_chars(s);
    out.append(&mut v);
}

/// The decimal digit `d` as a character, for `d < 10`.
pub open spec fn digit_char(d: int) -> char {
    if d == 0 {
        '0'
    } else if d == 1 {
        '1'
    } else if d == 2 {
        '2'
    } else if d == 3 {
        '3'
    } else if d == 4 {
        '4'
    } else if d == 5 {
        '5'
    } else if d == 6 {
        '6'
    } else if d == 7 {
        '7'
    } else if d == 8 {
        '8'
    } else {
        '9'
    }
}

/// The decimal representation of `n`, without leading zeros (except for 0
/// itself).
pub open spec fn dec_digits(n: nat) -> Seq<char>
    decreases n,
{
    if n < 10 {
        seq![digit_char(n as int)]
    } else {
        dec_digits(n / 10) + seq![digit_char((n % 10) as int)]
    }
}

/// Appends the decimal representation of `n` to `out`.
pub fn push_u32(out: &mut Vec<char>, n: u32)
    ensures
        final(out)@ == old(out)@ + dec_digits(n as nat),
    decreases n,
{
    if n >= 10 {
        push_u32(out, n / 10);
    }
    let d: u32 = n % 10;
    let c: char = if d == 0 {
        '0'
    } else if d == 1 {
        '1'
    } else if d == 2 {
        '2'
    } else if d == 3 {
        '3'
    } else if d == 4 {
        '4'
    } else if d == 5 {
        '5'
    } else if d == 6 {
        '6'
    } else if d == 7 {
        '7'
    } else if d == 8 {
        '8'
    } else {
        '9'
    };
    out.push(c);
    proof {
        if n < 10 {
            assert(out@ =~= old(out)@ + dec_digits(n as nat));
        } else {
            assert(out@ =~= old(out)@ + dec_digits(n as nat));
        }
    }
}

/// Whether two strings hold the same characters.
pub fn str_eq(a: &str, b: &str) -> (r: bool)
    ensures
        r == (a@ == b@),
{
    let av = str_chars(a);
    let bv = str_chars(b);
    if av.len() != bv.len() {
        return false;
    }
    let mut i: usize = 0;
    while i < av.len()
        invariant
            av@ == a@,
            bv@ == b@,
            i <= av@.len(),
            av@.len() == bv@.len(),
            forall|j: int| 0 <= j < i ==> av@[j] == bv@[j],
        decreases av@.len() - i,
    {
        if av[i] != bv[i] {
            proof {
                if a@ == b@ {
                    assert(a@[i as int] == b@[i as int]);
                }
            }
            return false;
        }
        i = i + 1;
    }
    proof {
        assert(av@ =~= bv@);
    }
    true
}

/// `p` is a prefix of `s`.
pub open spec fn is_prefix(p: Seq<char>, s: Seq<char>) -> bool {
    p.len() <= s.len() && s.take(p.len() as int) == p
}

/// `s` with every leading `/` removed.
pub open spec fn strip_leading_slashes(s: Seq<char>) -> Seq<char>
    decreases s.len(),
{
    if s.len() > 0 && s[0] == '/' {
        strip_leading_slashes(s.drop_first())
    } else {
        s
    }
}

/// `target` relative to `root` when it lies under it, else unchanged.
pub open spec fn spec_short_path(target: Seq<char>, root: Seq<char>) -> Seq<char> {
    if is_prefix(root, target) {
        strip_leading_slashes(target.skip(root.len() as int))
    } else {
        target
    }
}

/// Shortens `target` for display: the path relative to `root` when it
/// lies under it, the full path otherwise.
pub fn short_file_path(target: &str, root: &str) -> (r: String)
    ensures
        r@ == spec_short_path(target@, root@),
{
    let t = str_chars(target);
    let p = str_chars(root);
    let mut prefix = p.len() <= t.len();
    let mut i: usize = 0;
    if prefix {
        while i < p.len() && t[i] == p[i]
            invariant
                i <= p@.len(),
                p@.len() <= t@.len(),
                forall|j: int| 0 <= j < i ==> t@[j] == p@[j],
            decreases p@.len() - i,
        {
            i = i + 1;
        }
        if i < p.len() {
            prefix = false;
        }
        proof {
            if prefix {
                assert(t@.take(p@.len() as int) =~= p@);
            } else {
                if is_prefix(p@, t@) {
                    assert(t@.take(p@.len() as int)[i as int] == t@[i as int]);
                    assert(p@[i as int] == t@[i as int]);
                    assert(false);
                }
            }
        }
    }
    if !prefix {
        return target.to_owned();
    }
    let mut k: usize = p.len();
    while k < t.len() && t[k] == '/'
        invariant
            p@.len() <= k <= t@.len(),
            strip_leading_slashes(t@.skip(p@.len() as int)) == strip_leading_slashes(
                t@.skip(k as int),
            ),
        decreases t@.len() - k,
    {
        proof {
            assert(t@.skip(k as int)[0] == t@[k as int]);
            assert(t@.skip(k as int).drop_first() =~= t@.skip(k as int + 1));
        }
        k = k + 1;
    }
    proof {
        if k < t@.len() {
            assert(t@.skip(k as int)[0] == t@[k as int]);
        }
        assert(strip_leading_slashes(t@.skip(k as int)) == t@.skip(k as int));
    }
    let mut out: Vec<char> = Vec::new();
    let mut m: usize = k;
    while m < t.len()
        invariant
            k <= m <= t@.len(),
            out@ == t@.subrange(k as int, m as int),
        decreases t@.len() - m,
    {
        proof {
            assert(t@.subrange(k as int, m as int + 1) =~= t@.subrange(k as int, m as int).push(
                t@[m as int],
            ));
        }
        out.push(t[m]);
        m = m + 1;
    }
    proof {
        assert(out@ =~= t@.skip(k as int));
    }
    chars_to_string(&out)
}

/// The views of a vector of character vectors.
pub open spec fn piece_views(parts: Seq<Vec<char>>) -> Seq<Seq<char>> {
    parts.map_values(|p: Vec<char>| p@)
}

/// `parts` joined with `sep` between consecutive parts.
pub open spec fn join_with(parts: Seq<Seq<char>>, sep: Seq<char>) -> Seq<char>
    decreases parts.len(),
{
    if parts.len() == 0 {
        Seq::empty()
    } else if parts.len() == 1 {
        parts[0]
    } else {
        parts[0] + sep + join_with(parts.drop_first(), sep)
    }
}

/// Appending one more part appends a separator and that part (or is that
/// part alone, for the first).
pub proof fn lemma_join_with_push(parts: Seq<Seq<char>>, sep: Seq<char>, x: Seq<char>)
    ensures
        join_with(parts.push(x), sep) == if parts.len() == 0 {
            x
        } else {
            join_with(parts, sep) + sep + x
        },
    decreases parts.len(),
{
    if parts.len() == 0 {
        assert(parts.push(x).len() == 1);
        assert(parts.push(x)[0] == x);
    } else {
        assert(parts.push(x)[0] == parts[0]);
        assert(parts.push(x).drop_first() =~= parts.drop_first().push(x));
        lemma_join_with_push(parts.drop_first(), sep, x);
        if parts.len() == 1 {
            assert(parts.drop_first().len() == 0);
            assert(join_with(parts.push(x), sep) == parts[0] + sep + x);
            assert(join_with(parts, sep) == parts[0]);
        } else {
            assert(join_with(parts.push(x), sep) == parts[0] + sep + (join_with(
                parts.drop_first(),
                sep,
            ) + sep + x));
            assert(parts[0] + sep + (join_with(parts.drop_first(), sep) + sep + x) =~= (parts[0]
                + sep + join_with(parts.drop_first(), sep)) + sep + x);
        }
    }
}

/// Appends the characters of `part` to `out`.
pub fn push_chars(out: &mut Vec<char>, part: &Vec<char>)
    ensures
        final(out)@ == old(out)@ + part@,
{
    let mut j: usize = 0;
    while j < part.len()
        invariant
            j <= part@.len(),
            out@ == old(out)@ + part@.take(j as int),
        decreases part@.len() - j,
    {
        proof {
            assert(part@.take(j as int + 1) =~= part@.take(j as int).push(part@[j as int]));
        }
        out.push(part[j]);
        j = j + 1;
    }
    proof {
        assert(part@.take(part@.len() as int) =~= part@);
    }
}

/// Joins `parts` with `sep`.
pub fn join_pieces(parts: &Vec<Vec<char>>, sep: &str) -> (r: Vec<char>)
    ensures
        r@ == join_with(piece_views(parts@), sep@),
{
    let mut out: Vec<char> = Vec::new();
    let mut i: usize = 0;
    proof {
        assert(piece_views(parts@).take(0) =~= Seq::<Seq<char>>::empty());
    }
    while i < parts.len()
        invariant
            i <= parts@.len(),
            out@ == join_with(piece_views(parts@).take(i as int), sep@),
        decreases parts@.len() - i,
    {
        if i > 0 {
            push_str(&mut out, sep);
        }
        push_chars(&mut out, &parts[i]);
        proof {
            let views = piece_views(parts@);
            assert(views.take(i as int + 1) =~= views.take(i as int).push(views[i as int]));
            lemma_join_with_push(views.take(i as int), sep@, views[i as int]);
            assert(views[i as int] == parts@[i as int]@);
        }
        i = i + 1;
    }
    proof {
        assert(piece_views(parts@).take(parts@.len() as int) =~= piece_views(parts@));
    }
    out
}

} // verus!
