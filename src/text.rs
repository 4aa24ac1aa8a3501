use vstd::prelude::*;

verus! {

/// White space as `char::is_whitespace` defines it (the Unicode `White_Space` property).
pub open spec fn is_space(c: char) -> bool {
    let u = c as u32;
    (0x9 <= u && u <= 0xd) || u == 0x20 || u == 0x85 || u == 0xa0 || u == 0x1680 || (0x2000 <= u
        && u <= 0x200a) || u == 0x2028 || u == 0x2029 || u == 0x202f || u == 0x205f || u == 0x3000
}

/// `s` without its leading white space.
pub open spec fn trim_start_spec(s: Seq<char>) -> Seq<char>
    decreases s.len(),
{
    if s.len() > 0 && is_space(s[0]) {
        trim_start_spec(s.drop_first())
    } else {
        s
    }
}

/// `s` without its trailing white space.
pub open spec fn trim_end_spec(s: Seq<char>) -> Seq<char>
    decreases s.len(),
{
    if s.len() > 0 && is_space(s.last()) {
        trim_end_spec(s.drop_last())
    } else {
        s
    }
}

/// `s` without white space at either end.
pub open spec fn trim_spec(s: Seq<char>) -> Seq<char> {
    trim_end_spec(trim_start_spec(s))
}

/// The pieces of `s` cut at `sep`, read left to right: the finished pieces and the
/// piece still open.
pub open spec fn split_state(s: Seq<char>, sep: char) -> (Seq<Seq<char>>, Seq<char>)
    decreases s.len(),
{
    if s.len() == 0 {
        (Seq::empty(), Seq::empty())
    } else {
        let (done, cur) = split_state(s.drop_last(), sep);
        if s.last() == sep {
            (done.push(cur), Seq::empty())
        } else {
            (done, cur.push(s.last()))
        }
    }
}

/// The pieces of `s` between occurrences of `sep`, as `str::split` yields them:
/// never empty, and one more than the occurrences of `sep`.
pub open spec fn split_spec(s: Seq<char>, sep: char) -> Seq<Seq<char>> {
    split_state(s, sep).0.push(split_state(s, sep).1)
}

/// What a vector of strings holds, string by string.
pub open spec fn strings_view(v: Seq<String>) -> Seq<Seq<char>> {
    v.map_values(|x: String| x@)
}

/// The concatenation of a sequence of texts.
pub open spec fn concat_all(v: Seq<Seq<char>>) -> Seq<char>
    decreases v.len(),
{
    if v.len() == 0 {
        Seq::empty()
    } else {
        concat_all(v.drop_last()) + v.last()
    }
}

fn is_space_char(c: char) -> (r: bool)
    ensures
        r == is_space(c),
{
    let u = c as u32;
    (0x9 <= u && u <= 0xd) || u == 0x20 || u == 0x85 || u == 0xa0 || u == 0x1680 || (0x2000 <= u
        && u <= 0x200a) || u == 0x2028 || u == 0x2029 || u == 0x202f || u == 0x205f || u == 0x3000
}

/// `s` without white space at either end, as `str::trim` gives it.
pub fn trim(s: &str) -> (r: String)
    ensures
        r@ == trim_spec(s@),
{
    let cs = chars_of(s);
    let n = cs.len();
    let mut i: usize = 0;
    assert(cs@.subrange(0, n as int) =~= s@);
    while i < n && is_space_char(cs[i])
        invariant
            i <= n,
            n == cs.len(),
            cs@ == s@,
            trim_start_spec(s@) == trim_start_spec(cs@.subrange(i as int, n as int)),
        decreases n - i,
    {
        proof {
            let t = cs@.subrange(i as int, n as int);
            assert(t[0] == cs@[i as int]);
            assert(t.drop_first() =~= cs@.subrange(i + 1, n as int));
        }
        i += 1;
    }
    proof {
        let t = cs@.subrange(i as int, n as int);
        if i < n {
            assert(t[0] == cs@[i as int]);
        } else {
            assert(t.len() == 0);
        }
        assert(trim_start_spec(s@) == t);
    }
    let mut j: usize = n;
    while j > i && is_space_char(cs[j - 1])
        invariant
            i <= j <= n,
            n == cs.len(),
            cs@ == s@,
            trim_start_spec(s@) == cs@.subrange(i as int, n as int),
            trim_spec(s@) == trim_end_spec(cs@.subrange(i as int, j as int)),
        decreases j - i,
    {
        proof {
            let t = cs@.subrange(i as int, j as int);
            assert(t.last() == cs@[j - 1]);
            assert(t.drop_last() =~= cs@.subrange(i as int, j - 1));
        }
        j -= 1;
    }
    proof {
        let t = cs@.subrange(i as int, j as int);
        if j > i {
            assert(t.last() == cs@[j - 1]);
        }
        assert(trim_spec(s@) == t);
    }
    s.substring_char(i, j).to_owned()
}

/// Relies on `str::chars`: the characters of `s` in order.
#[verifier::external_body]
pub(crate) fn chars_of(s: &str) -> (r: Vec<char>)
    ensures
        r@ == s@,
{
    s.chars().collect()
}

/// Relies on `String: FromIterator<&char>`: the string made of these characters.
#[verifier::external_body]
pub(crate) fn string_of(cs: &Vec<char>) -> (r: String)
    ensures
        r@ == cs@,
{
    cs.iter().collect()
}

/// Cuts `s` at each `sep`, as `str::split` does with a character.
pub fn split_on(s: &str, sep: char) -> (r: Vec<String>)
    ensures
        strings_view(r@) == split_spec(s@, sep),
{
    let cs = chars_of(s);
    let mut done: Vec<String> = Vec::new();
    let mut cur: Vec<char> = Vec::new();
    let mut i: usize = 0;
    while i < cs.len()
        invariant
            i <= cs.len(),
            cs@ == s@,
            split_state(cs@.subrange(0, i as int), sep).0 == strings_view(done@),
            split_state(cs@.subrange(0, i as int), sep).1 == cur@,
        decreases cs.len() - i,
    {
        let c = cs[i];
        proof {
            assert(cs@.subrange(0, i + 1).drop_last() =~= cs@.subrange(0, i as int));
        }
        if c == sep {
            let piece = string_of(&cur);
            proof {
                assert(strings_view(done@.push(piece)) =~= strings_view(done@).push(piece@));
            }
            done.push(piece);
            cur = Vec::new();
            proof {
                assert(cur@ =~= Seq::<char>::empty());
            }
        } else {
            cur.push(c);
        }
        i += 1;
    }
    proof {
        assert(cs@.subrange(0, i as int) =~= s@);
    }
    let last = string_of(&cur);
    proof {
        assert(strings_view(done@.push(last)) =~= strings_view(done@).push(last@));
    }
    done.push(last);
    done
}

/// The strings of `v` from index `start` on, concatenated.
pub(crate) fn concat_from(v: &Vec<String>, start: usize) -> (r: String)
    requires
        start <= v.len(),
    ensures
        r@ == concat_all(strings_view(v@).subrange(start as int, v.len() as int)),
{
    let ghost sv = strings_view(v@);
    let mut acc = String::new();
    let mut i = start;
    proof {
        assert(sv.subrange(start as int, start as int) =~= Seq::<Seq<char>>::empty());
    }
    while i < v.len()
        invariant
            start <= i <= v.len(),
            sv == strings_view(v@),
            acc@ == concat_all(sv.subrange(start as int, i as int)),
        decreases v.len() - i,
    {
        proof {
            assert(sv.subrange(start as int, i + 1).drop_last() =~= sv.subrange(
                start as int,
                i as int,
            ));
            assert(sv.subrange(start as int, i + 1).last() == v@[i as int]@);
        }
        acc.append(v[i].as_str());
        i += 1;
    }
    acc
}

} // verus!
