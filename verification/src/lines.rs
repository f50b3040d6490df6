//! The line store: a file's content split into an ordered sequence of lines
//! on `'\n'` separators, and rejoined with the same separators.

use vstd::prelude::*;

verus! {

use vstd::string::StrSliceExecFns;
use vstd::string::StringExecFns;

/// Lines of `s`, given that the characters of `cur` have already been read
/// as the beginning of the current line.
pub open spec fn split_acc(s: Seq<char>, cur: Seq<char>) -> Seq<Seq<char>>
    decreases s.len(),
{
    if s.len() == 0 {
        seq![cur]
    } else if s[0] == '\n' {
        seq![cur] + split_acc(s.drop_first(), Seq::empty())
    } else {
        split_acc(s.drop_first(), cur.push(s[0]))
    }
}

/// The lines of `s`: splitting on every `'\n'`. Splitting the empty string
/// gives one empty line, as splitting a separator-terminated string gives a
/// final empty line.
pub open spec fn lines_of(s: Seq<char>) -> Seq<Seq<char>> {
    split_acc(s, Seq::empty())
}

/// The lines joined back with `'\n'` separators.
pub open spec fn join_of(ls: Seq<Seq<char>>) -> Seq<char>
    decreases ls.len(),
{
    if ls.len() == 0 {
        Seq::empty()
    } else if ls.len() == 1 {
        ls[0]
    } else {
        ls[0] + seq!['\n'] + join_of(ls.drop_first())
    }
}

/// Splitting always produces at least one line.
pub proof fn lemma_split_nonempty(s: Seq<char>, cur: Seq<char>)
    ensures
        split_acc(s, cur).len() >= 1,
    decreases s.len(),
{
    if s.len() == 0 {
    } else if s[0] == '\n' {
    } else {
        lemma_split_nonempty(s.drop_first(), cur.push(s[0]));
    }
}

/// No line produced by splitting contains a separator.
pub proof fn lemma_split_nl_free(s: Seq<char>, cur: Seq<char>)
    requires
        !cur.contains('\n'),
    ensures
        forall|k: int|
            0 <= k < split_acc(s, cur).len() ==> !(#[trigger] split_acc(s, cur)[k]).contains('\n'),
    decreases s.len(),
{
    if s.len() == 0 {
        assert forall|k: int|
            0 <= k < split_acc(s, cur).len() implies !(#[trigger] split_acc(s, cur)[k]).contains(
            '\n',
        ) by {
            assert(split_acc(s, cur)[k] == cur);
        }
    } else if s[0] == '\n' {
        lemma_split_nl_free(s.drop_first(), Seq::empty());
        let rest = split_acc(s.drop_first(), Seq::empty());
        assert forall|k: int|
            0 <= k < split_acc(s, cur).len() implies !(#[trigger] split_acc(s, cur)[k]).contains(
            '\n',
        ) by {
            if k == 0 {
                assert(split_acc(s, cur)[k] == cur);
            } else {
                assert(split_acc(s, cur)[k] == rest[k - 1]);
                assert(!rest[k - 1].contains('\n'));
            }
        }
    } else {
        assert(!cur.push(s[0]).contains('\n')) by {
            assert(forall|k: int|
                0 <= k < cur.push(s[0]).len() ==> cur.push(s[0])[k] != '\n');
        }
        lemma_split_nl_free(s.drop_first(), cur.push(s[0]));
        assert forall|k: int|
            0 <= k < split_acc(s, cur).len() implies !(#[trigger] split_acc(s, cur)[k]).contains(
            '\n',
        ) by {
            assert(split_acc(s, cur)[k] == split_acc(s.drop_first(), cur.push(s[0]))[k]);
        }
    }
}

/// Joining the lines of `s` gives back `s` exactly.
pub proof fn lemma_join_of_split(s: Seq<char>, cur: Seq<char>)
    ensures
        join_of(split_acc(s, cur)) == cur + s,
    decreases s.len(),
{
    if s.len() == 0 {
        assert(cur + s =~= cur);
    } else if s[0] == '\n' {
        lemma_join_of_split(s.drop_first(), Seq::empty());
        lemma_split_nonempty(s.drop_first(), Seq::empty());
        let rest = split_acc(s.drop_first(), Seq::empty());
        assert((seq![cur] + rest).drop_first() =~= rest);
        assert(join_of(seq![cur] + rest) == cur + seq!['\n'] + join_of(rest));
        assert(Seq::<char>::empty() + s.drop_first() =~= s.drop_first());
        assert(cur + seq!['\n'] + s.drop_first() =~= cur + s);
    } else {
        lemma_join_of_split(s.drop_first(), cur.push(s[0]));
        assert(cur.push(s[0]) + s.drop_first() =~= cur + s);
    }
}

/// Joining the lines of `s` gives back `s` exactly.
pub proof fn lemma_join_of_lines(s: Seq<char>)
    ensures
        join_of(lines_of(s)) == s,
{
    lemma_join_of_split(s, Seq::empty());
    assert(Seq::<char>::empty() + s =~= s);
}

/// Splitting a separator-free string yields the one line `cur + s`.
proof fn lemma_split_of_nl_free(s: Seq<char>, cur: Seq<char>)
    requires
        !s.contains('\n'),
    ensures
        split_acc(s, cur) == seq![cur + s],
    decreases s.len(),
{
    if s.len() == 0 {
        assert(cur + s =~= cur);
        assert(split_acc(s, cur) =~= seq![cur + s]);
    } else {
        assert(s[0] != '\n');
        assert(!s.drop_first().contains('\n')) by {
            assert(forall|k: int|
                0 <= k < s.drop_first().len() ==> s.drop_first()[k] == s[k + 1]);
        }
        lemma_split_of_nl_free(s.drop_first(), cur.push(s[0]));
        assert(cur.push(s[0]) + s.drop_first() =~= cur + s);
    }
}

/// Splitting `a + '\n' + b` for separator-free `a` peels off the line
/// `cur + a` and continues on `b` afresh.
proof fn lemma_split_peel(a: Seq<char>, b: Seq<char>, cur: Seq<char>)
    requires
        !a.contains('\n'),
    ensures
        split_acc(a + seq!['\n'] + b, cur) == seq![cur + a] + split_acc(b, Seq::empty()),
    decreases a.len(),
{
    let s = a + seq!['\n'] + b;
    if a.len() == 0 {
        assert(s[0] == '\n');
        assert(s.drop_first() =~= b);
        assert(cur + a =~= cur);
        assert(seq![cur] =~= seq![cur + a]);
    } else {
        assert(a[0] != '\n');
        assert(s[0] == a[0]);
        assert(!a.drop_first().contains('\n')) by {
            assert(forall|k: int|
                0 <= k < a.drop_first().len() ==> a.drop_first()[k] == a[k + 1]);
        }
        lemma_split_peel(a.drop_first(), b, cur.push(a[0]));
        assert(s.drop_first() =~= a.drop_first() + seq!['\n'] + b);
        assert(cur.push(a[0]) + a.drop_first() =~= cur + a);
    }
}

/// Splitting is the inverse of joining, for any non-empty sequence of
/// separator-free lines.
pub proof fn lemma_lines_of_join(ls: Seq<Seq<char>>)
    requires
        ls.len() >= 1,
        forall|k: int| 0 <= k < ls.len() ==> !(#[trigger] ls[k]).contains('\n'),
    ensures
        lines_of(join_of(ls)) == ls,
    decreases ls.len(),
{
    if ls.len() == 1 {
        lemma_split_of_nl_free(ls[0], Seq::empty());
        assert(Seq::<char>::empty() + ls[0] =~= ls[0]);
        assert(lines_of(join_of(ls)) =~= ls);
    } else {
        let rest = ls.drop_first();
        assert(forall|k: int| 0 <= k < rest.len() ==> rest[k] == ls[k + 1]);
        lemma_lines_of_join(rest);
        lemma_split_peel(ls[0], join_of(rest), Seq::empty());
        assert(Seq::<char>::empty() + ls[0] =~= ls[0]);
        assert(lines_of(join_of(ls)) =~= seq![ls[0]] + split_acc(join_of(rest), Seq::empty()));
        assert(seq![ls[0]] + rest =~= ls);
    }
}

/// Splits `content` into its lines, in order.
pub fn split_lines(content: &str) -> (r: Vec<String>)
    ensures
        r.deep_view() == lines_of(content@),
{
    let n = content.unicode_len();
    let mut out: Vec<String> = Vec::new();
    let mut start: usize = 0;
    let mut i: usize = 0;
    proof {
        assert(content@.skip(0) =~= content@);
        assert(content@.subrange(0, 0) =~= Seq::<char>::empty());
        assert(out.deep_view() =~= Seq::<Seq<char>>::empty());
        assert(Seq::<Seq<char>>::empty() + split_acc(content@, Seq::empty()) =~= split_acc(
            content@,
            Seq::empty(),
        ));
    }
    while i < n
        invariant
            n == content@.len(),
            0 <= start <= i <= n,
            lines_of(content@) == out.deep_view() + split_acc(
                content@.skip(i as int),
                content@.subrange(start as int, i as int),
            ),
        decreases n - i,
    {
        let ghost s = content@;
        let ghost cur = s.subrange(start as int, i as int);
        let c = content.get_char(i);
        proof {
            assert(s.skip(i as int)[0] == s[i as int]);
        }
        if c == '\n' {
            let line = String::from_str(content.substring_char(start, i));
            proof {
                assert(s.skip(i as int).drop_first() =~= s.skip(i + 1));
                assert(split_acc(s.skip(i as int), cur) == seq![cur] + split_acc(
                    s.skip(i + 1),
                    Seq::empty(),
                ));
            }
            out.push(line);
            proof {
                assert(out.deep_view() =~= out.deep_view().subrange(0, out.deep_view().len() - 1)
                    + seq![cur]);
                assert(out.deep_view().subrange(0, out.deep_view().len() - 1) + seq![cur]
                    + split_acc(s.skip(i + 1), Seq::empty()) =~= out.deep_view() + split_acc(
                    s.skip(i + 1),
                    Seq::empty(),
                ));
                assert(s.subrange(i + 1, i + 1) =~= Seq::<char>::empty());
            }
            start = i + 1;
        } else {
            proof {
                assert(split_acc(s.skip(i as int), cur) == split_acc(
                    s.skip(i as int).drop_first(),
                    cur.push(s[i as int]),
                ));
                assert(s.skip(i as int).drop_first() =~= s.skip(i + 1));
                assert(cur.push(s[i as int]) =~= s.subrange(start as int, i + 1));
            }
        }
        i += 1;
    }
    let last = String::from_str(content.substring_char(start, n));
    proof {
        let s = content@;
        let cur = s.subrange(start as int, n as int);
        assert(s.skip(n as int) =~= Seq::<char>::empty());
        assert(split_acc(s.skip(n as int), cur) =~= seq![cur]);
    }
    out.push(last);
    proof {
        let s = content@;
        let cur = s.subrange(start as int, n as int);
        assert(out.deep_view() =~= out.deep_view().subrange(0, out.deep_view().len() - 1)
            + seq![cur]);
        assert(out.deep_view().subrange(0, out.deep_view().len() - 1) + seq![cur] =~= lines_of(
            content@,
        ));
    }
    out
}

/// `join_of` over a sequence extended by one more line.
pub proof fn lemma_join_snoc(ls: Seq<Seq<char>>, x: Seq<char>)
    requires
        ls.len() >= 1,
    ensures
        join_of(ls.push(x)) == join_of(ls) + seq!['\n'] + x,
    decreases ls.len(),
{
    if ls.len() == 1 {
        let p = ls.push(x);
        assert(p.drop_first() =~= seq![x]);
        assert(join_of(seq![x]) == x);
        assert(join_of(p) == ls[0] + seq!['\n'] + x);
    } else {
        lemma_join_snoc(ls.drop_first(), x);
        assert(ls.push(x).drop_first() =~= ls.drop_first().push(x));
        assert(ls[0] + seq!['\n'] + (join_of(ls.drop_first()) + seq!['\n'] + x) =~= (ls[0]
            + seq!['\n'] + join_of(ls.drop_first())) + seq!['\n'] + x);
    }
}

/// Rejoins the lines with `'\n'` separators.
pub fn join_lines(lines: &Vec<String>) -> (r: String)
    ensures
        r@ == join_of(lines.deep_view()),
{
    let mut out = String::new();
    let mut i: usize = 0;
    proof {
        reveal_strlit("\n");
    }
    while i < lines.len()
        invariant
            0 <= i <= lines.len(),
            "\n"@ == seq!['\n'],
            out@ == join_of(lines.deep_view().take(i as int)),
        decreases lines.len() - i,
    {
        let ghost dv = lines.deep_view();
        if i > 0 {
            out.append("\n");
        }
        out.append(lines[i].as_str());
        proof {
            assert(dv.take(i + 1) =~= dv.take(i as int).push(dv[i as int]));
            if i > 0 {
                lemma_join_snoc(dv.take(i as int), dv[i as int]);
            } else {
                assert(dv.take(1) =~= seq![dv[0]]);
            }
        }
        i += 1;
    }
    proof {
        assert(lines.deep_view().take(lines.deep_view().len() as int) =~= lines.deep_view());
    }
    out
}

} // verus!
