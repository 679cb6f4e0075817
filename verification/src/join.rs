use vstd::prelude::*;

verus! {

/// The characters of each string.
pub open spec fn texts(v: Seq<String>) -> Seq<Seq<char>> {
    v.map_values(|s: String| s@)
}

/// `parts` with `sep` between each two neighbours.
pub open spec fn joined(parts: Seq<Seq<char>>, sep: Seq<char>) -> Seq<char>
    decreases parts.len(),
{
    if parts.len() == 0 {
        Seq::empty()
    } else if parts.len() == 1 {
        parts[0]
    } else {
        joined(parts.drop_last(), sep) + sep + parts.last()
    }
}

/// Appends the strings of `parts` to `out`, with `sep` between each two neighbours.
pub fn append_joined(out: &mut String, parts: &Vec<String>, sep: &str)
    ensures
        final(out)@ == old(out)@ + joined(texts(parts@), sep@),
{
    let ghost start = out@;
    let mut i: usize = 0;
    while i < parts.len()
        invariant
            i <= parts@.len(),
            out@ == start + joined(texts(parts@.take(i as int)), sep@),
        decreases parts@.len() - i,
    {
        proof {
            let t = texts(parts@.take(i as int + 1));
            assert(t.drop_last() =~= texts(parts@.take(i as int)));
            assert(t.last() == parts@[i as int]@);
        }
        if i > 0 {
            out.append(sep);
        }
        out.append(parts[i].as_str());
        proof {
            if i == 0 {
                assert(texts(parts@.take(1)).len() == 1);
                assert(out@ =~= start + joined(texts(parts@.take(1)), sep@));
            } else {
                assert(out@ =~= start + joined(texts(parts@.take(i as int + 1)), sep@));
            }
        }
        i = i + 1;
    }
    assert(parts@.take(i as int) =~= parts@);
}

/// Joining keeps every part in order: nothing from nothing, a single part as
/// it is, and one more part adds the separator and that part at the end.
pub proof fn lemma_joined_parts(parts: Seq<Seq<char>>, sep: Seq<char>, x: Seq<char>)
    ensures
        joined(Seq::empty(), sep) == Seq::<char>::empty(),
        joined(seq![x], sep) == x,
        parts.len() > 0 ==> joined(parts.push(x), sep) == joined(parts, sep) + sep + x,
{
    assert(seq![x].len() == 1);
    if parts.len() > 0 {
        assert(parts.push(x).drop_last() =~= parts);
    }
}

/// The joined text is as long as all parts together plus one separator
/// between each two neighbours.
pub proof fn lemma_joined_len(parts: Seq<Seq<char>>, sep: Seq<char>)
    requires
        parts.len() > 0,
    ensures
        joined(parts, sep).len() == total_len(parts) + (parts.len() - 1) * sep.len(),
    decreases parts.len(),
{
    if parts.len() > 1 {
        lemma_joined_len(parts.drop_last(), sep);
        let n = parts.len() as int;
        let m = sep.len() as int;
        assert((n - 1) * m == (n - 2) * m + m) by (nonlinear_arith);
    } else {
        assert(total_len(parts.drop_last()) == 0);
    }
}

/// The number of characters in all of `parts`.
pub open spec fn total_len(parts: Seq<Seq<char>>) -> int
    decreases parts.len(),
{
    if parts.len() == 0 {
        0
    } else {
        total_len(parts.drop_last()) + parts.last().len()
    }
}

/// `texts` keeps one text per string, in order.
pub proof fn lemma_texts(v: Seq<String>)
    ensures
        texts(v).len() == v.len(),
        forall|i: int| 0 <= i < v.len() ==> #[trigger] texts(v)[i] == v[i]@,
{
}

} // verus!
