use vstd::prelude::*;

verus! {

/// The consecutive chunks of `s` of `n` ports each, the last one possibly
/// shorter.
pub open spec fn chunks_of(s: Seq<u16>, n: nat) -> Seq<Seq<u16>>
    decreases s.len(),
{
    if s.len() == 0 || n == 0 {
        Seq::empty()
    } else if s.len() <= n {
        seq![s]
    } else {
        seq![s.take(n as int)] + chunks_of(s.skip(n as int), n)
    }
}

/// The contents of a sequence of vectors.
pub open spec fn vec_views(v: Seq<Vec<u16>>) -> Seq<Seq<u16>> {
    v.map_values(|c: Vec<u16>| c@)
}

/// Splits `ports` into consecutive chunks of `chunk_size` ports; the last
/// chunk holds what is left.
pub fn chunk_ports(ports: &Vec<u16>, chunk_size: usize) -> (r: Vec<Vec<u16>>)
    requires
        chunk_size > 0,
    ensures
        vec_views(r@) == chunks_of(ports@, chunk_size as nat),
{
    let n = ports.len();
    let mut r: Vec<Vec<u16>> = Vec::new();
    let mut i: usize = 0;
    proof {
        assert(ports@.skip(0) =~= ports@);
        assert(vec_views(r@) =~= Seq::<Seq<u16>>::empty());
        assert(Seq::<Seq<u16>>::empty() + chunks_of(ports@, chunk_size as nat) =~= chunks_of(
            ports@,
            chunk_size as nat,
        ));
    }
    while i < n
        invariant
            n == ports@.len(),
            chunk_size > 0,
            i <= n,
            chunks_of(ports@, chunk_size as nat) == vec_views(r@) + chunks_of(
                ports@.skip(i as int),
                chunk_size as nat,
            ),
        decreases n - i,
    {
        let end: usize = if n - i <= chunk_size {
            n
        } else {
            i + chunk_size
        };
        let mut chunk: Vec<u16> = Vec::new();
        let mut j: usize = i;
        while j < end
            invariant
                i <= j <= end <= n,
                n == ports@.len(),
                chunk@ == ports@.subrange(i as int, j as int),
            decreases end - j,
        {
            chunk.push(ports[j]);
            j = j + 1;
            assert(chunk@ =~= ports@.subrange(i as int, j as int));
        }
        let ghost rest = ports@.skip(i as int);
        proof {
            if end == n {
                assert(rest =~= chunk@);
                assert(ports@.skip(n as int) =~= Seq::<u16>::empty());
            } else {
                assert(rest.take(chunk_size as int) =~= chunk@);
                assert(rest.skip(chunk_size as int) =~= ports@.skip(end as int));
            }
        }
        let ghost before = r@;
        r.push(chunk);
        proof {
            assert(vec_views(r@) =~= vec_views(before).push(chunk@));
            assert(vec_views(before) + chunks_of(rest, chunk_size as nat) =~= vec_views(r@)
                + chunks_of(ports@.skip(end as int), chunk_size as nat));
        }
        i = end;
    }
    proof {
        assert(ports@.skip(n as int) =~= Seq::<u16>::empty());
        assert(vec_views(r@) + Seq::<Seq<u16>>::empty() =~= vec_views(r@));
    }
    r
}

/// Chunking loses and invents nothing: the chunks, put back together in
/// order, are the port list, whatever the chunk size.
pub proof fn lemma_chunks_flatten(s: Seq<u16>, n: nat)
    requires
        n > 0,
    ensures
        chunks_of(s, n).flatten() == s,
    decreases s.len(),
{
    if s.len() == 0 {
    } else if s.len() <= n {
        let c = chunks_of(s, n);
        assert(c.drop_first() =~= Seq::<Seq<u16>>::empty());
        assert(c.drop_first().flatten() =~= Seq::<u16>::empty());
        assert(c.flatten() =~= s + Seq::<u16>::empty());
    } else {
        let c = chunks_of(s, n);
        lemma_chunks_flatten(s.skip(n as int), n);
        assert(c.drop_first() =~= chunks_of(s.skip(n as int), n));
        assert(s =~= s.take(n as int) + s.skip(n as int));
    }
}

/// Every chunk holds at least one port and at most `n`; all but the last
/// hold exactly `n`.
pub proof fn lemma_chunk_sizes(s: Seq<u16>, n: nat)
    requires
        n > 0,
    ensures
        forall|i: int|
            0 <= i < chunks_of(s, n).len() ==> 0 < #[trigger] chunks_of(s, n)[i].len() <= n,
        forall|i: int|
            0 <= i < chunks_of(s, n).len() - 1 ==> #[trigger] chunks_of(s, n)[i].len() == n,
        chunks_of(s, n).len() == (s.len() + n - 1) / n as int,
    decreases s.len(),
{
    if s.len() == 0 {
        assert((s.len() + n - 1) / n as int == 0) by (nonlinear_arith)
            requires
                s.len() == 0,
                n > 0,
        ;
    } else if s.len() <= n {
        assert((s.len() + n - 1) / n as int == 1) by (nonlinear_arith)
            requires
                0 < s.len() <= n,
        ;
    } else {
        let t = s.skip(n as int);
        lemma_chunk_sizes(t, n);
        let c = chunks_of(s, n);
        assert(c.len() == chunks_of(t, n).len() + 1);
        assert forall|i: int| 0 < i < c.len() implies c[i] == chunks_of(t, n)[i - 1] by {}
        assert((s.len() + n - 1) / n as int == (t.len() + n - 1) / n as int + 1) by (nonlinear_arith)
            requires
                t.len() == s.len() - n,
                n > 0,
        ;
    }
}

} // verus!
