//! Ticket identity and ordering.
//!
//! A ticket's identity is its full key: the project key together with
//! the ticket number.  Ticket sets are deduplicated by that identity and
//! iterate in ascending order: project keys compare by their UTF-8
//! bytes (the byte order of strings), equal keys by the number.

use vstd::prelude::*;
use vstd::utf8::encode_utf8;

use crate::model::Ticket;

verus! {

/// Strict lexicographic order on byte strings.
pub open spec fn bytes_lt(a: Seq<u8>, b: Seq<u8>) -> bool
    decreases a.len(),
{
    if b.len() == 0 {
        false
    } else if a.len() == 0 {
        true
    } else if a[0] != b[0] {
        a[0] < b[0]
    } else {
        bytes_lt(a.drop_first(), b.drop_first())
    }
}

/// `bytes_lt` is irreflexive.
pub proof fn lemma_bytes_lt_irrefl(a: Seq<u8>)
    ensures
        !bytes_lt(a, a),
    decreases a.len(),
{
    if a.len() > 0 {
        lemma_bytes_lt_irrefl(a.drop_first());
    }
}

/// `bytes_lt` is transitive.
pub proof fn lemma_bytes_lt_trans(a: Seq<u8>, b: Seq<u8>, c: Seq<u8>)
    requires
        bytes_lt(a, b),
        bytes_lt(b, c),
    ensures
        bytes_lt(a, c),
    decreases a.len() + b.len() + c.len(),
{
    if a.len() > 0 && b.len() > 0 && c.len() > 0 && a[0] == b[0] && b[0] == c[0] {
        lemma_bytes_lt_trans(a.drop_first(), b.drop_first(), c.drop_first());
    }
}

/// Two byte strings are equal or one is strictly below the other.
pub proof fn lemma_bytes_lt_total(a: Seq<u8>, b: Seq<u8>)
    ensures
        bytes_lt(a, b) || bytes_lt(b, a) || a == b,
    decreases a.len(),
{
    if a.len() > 0 && b.len() > 0 && a[0] == b[0] {
        lemma_bytes_lt_total(a.drop_first(), b.drop_first());
        if a.drop_first() == b.drop_first() {
            assert(a.drop_first().len() == a.len() - 1);
            assert(b.drop_first().len() == b.len() - 1);
            assert(a.len() == b.len());
            assert forall|i: int| 0 <= i < a.len() implies a[i] == b[i] by {
                if i > 0 {
                    assert(a.drop_first()[i - 1] == b.drop_first()[i - 1]);
                }
            }
            assert(a =~= b);
        }
    }
}

/// Under a hypothesis that `a` and `b` agree below position `i`, the
/// order is decided at `i`: by the first differing byte, or, where one
/// string ends, by length.
pub proof fn lemma_bytes_lt_at(a: Seq<u8>, b: Seq<u8>, i: int)
    requires
        0 <= i <= a.len(),
        i <= b.len(),
        forall|j: int| 0 <= j < i ==> a[j] == b[j],
    ensures
        i < a.len() && i < b.len() && a[i] != b[i] ==> (bytes_lt(a, b) <==> a[i] < b[i]),
        i == a.len() ==> (bytes_lt(a, b) <==> a.len() < b.len()),
        i == b.len() && i < a.len() ==> !bytes_lt(a, b),
    decreases i,
{
    if i > 0 {
        lemma_bytes_lt_at(a.drop_first(), b.drop_first(), i - 1);
    }
}

/// Whether the bytes of `a` are strictly below the bytes of `b`.
pub fn bytes_lt_exec(a: &[u8], b: &[u8]) -> (r: bool)
    ensures
        r == bytes_lt(a@, b@),
{
    let mut i: usize = 0;
    while i < a.len() && i < b.len()
        invariant
            0 <= i <= a@.len(),
            i <= b@.len(),
            forall|j: int| 0 <= j < i ==> a@[j] == b@[j],
        decreases a@.len() - i,
    {
        if a[i] != b[i] {
            proof {
                lemma_bytes_lt_at(a@, b@, i as int);
            }
            return a[i] < b[i];
        }
        i = i + 1;
    }
    proof {
        lemma_bytes_lt_at(a@, b@, i as int);
    }
    a.len() < b.len()
}

/// A ticket's full identity: the project key's bytes and the number.
pub open spec fn ticket_key(t: Ticket) -> (Seq<u8>, int) {
    (encode_utf8(t.proj_key@), t.tick_num as int)
}

/// Strict order on tickets: by project key bytes, then by number.
pub open spec fn ticket_lt(a: Ticket, b: Ticket) -> bool {
    bytes_lt(ticket_key(a).0, ticket_key(b).0) || (ticket_key(a).0 == ticket_key(b).0
        && a.tick_num < b.tick_num)
}

/// Tickets with the same key are not ordered; distinct keys always are.
pub proof fn lemma_ticket_lt_key(a: Ticket, b: Ticket)
    ensures
        ticket_key(a) == ticket_key(b) ==> !ticket_lt(a, b) && !ticket_lt(b, a),
        ticket_key(a) != ticket_key(b) ==> (ticket_lt(a, b) <==> !ticket_lt(b, a)),
{
    lemma_bytes_lt_irrefl(ticket_key(a).0);
    lemma_bytes_lt_total(ticket_key(a).0, ticket_key(b).0);
    if bytes_lt(ticket_key(a).0, ticket_key(b).0) && bytes_lt(ticket_key(b).0, ticket_key(a).0) {
        lemma_bytes_lt_trans(ticket_key(a).0, ticket_key(b).0, ticket_key(a).0);
    }
}

/// `ticket_lt` is transitive.
pub proof fn lemma_ticket_lt_trans(a: Ticket, b: Ticket, c: Ticket)
    requires
        ticket_lt(a, b),
        ticket_lt(b, c),
    ensures
        ticket_lt(a, c),
{
    if bytes_lt(ticket_key(a).0, ticket_key(b).0) && bytes_lt(ticket_key(b).0, ticket_key(c).0) {
        lemma_bytes_lt_trans(ticket_key(a).0, ticket_key(b).0, ticket_key(c).0);
    }
}

/// Whether `a` comes strictly before `b` in the ticket order.
pub fn ticket_lt_exec(a: &Ticket, b: &Ticket) -> (r: bool)
    ensures
        r == ticket_lt(*a, *b),
{
    let ab = a.proj_key.as_str().as_bytes();
    let bb = b.proj_key.as_str().as_bytes();
    if bytes_lt_exec(ab, bb) {
        true
    } else if bytes_lt_exec(bb, ab) {
        false
    } else {
        proof {
            lemma_bytes_lt_total(ab@, bb@);
        }
        a.tick_num < b.tick_num
    }
}

/// The identities of a sequence of tickets, as a set.
pub open spec fn ticket_keys(s: Seq<Ticket>) -> Set<(Seq<u8>, int)> {
    s.map_values(|t: Ticket| ticket_key(t)).to_set()
}

/// A ticket sequence sorted strictly ascending: ordered, and thereby
/// free of duplicate identities.
pub open spec fn tickets_sorted(s: Seq<Ticket>) -> bool {
    forall|i: int, j: int| 0 <= i < j < s.len() ==> ticket_lt(s[i], s[j])
}

/// Inserts `t` into the sorted ticket sequence `v`, keeping it sorted
/// and dropping `t` if its identity is already present.
pub fn insert_ticket(v: &mut Vec<Ticket>, t: Ticket)
    requires
        tickets_sorted(old(v)@),
    ensures
        tickets_sorted(final(v)@),
        ticket_keys(final(v)@) =~= ticket_keys(old(v)@).insert(ticket_key(t)),
        forall|x: Ticket| final(v)@.contains(x) ==> old(v)@.contains(x) || x == t,
        forall|x: Ticket| old(v)@.contains(x) ==> final(v)@.contains(x),
{
    let ghost old_v = v@;
    let mut i: usize = 0;
    while i < v.len() && ticket_lt_exec(&v[i], &t)
        invariant
            0 <= i <= v@.len(),
            v@ == old_v,
            forall|j: int| 0 <= j < i ==> ticket_lt(v@[j], t),
        decreases v@.len() - i,
    {
        i = i + 1;
    }
    if i < v.len() {
        let same = {
            let c = &v[i];
            !ticket_lt_exec(c, &t) && !ticket_lt_exec(&t, c) && c.tick_num == t.tick_num
        };
        proof {
            lemma_bytes_lt_total(ticket_key(v@[i as int]).0, ticket_key(t).0);
        }
        if same {
            // The identity is already present; keep the existing entry.
            proof {
                assert(ticket_key(v@[i as int]) == ticket_key(t));
                assert(v@.map_values(|x: Ticket| ticket_key(x))[i as int] == ticket_key(t));
                assert(v@.map_values(|x: Ticket| ticket_key(x)).contains(ticket_key(t)));
            }
            return ;
        }
    }
    v.insert(i, t);
    proof {
        assert(final(v)@ == old_v.insert(i as int, t));
        assert forall|p: int, q: int| 0 <= p < q < final(v)@.len() implies ticket_lt(
            final(v)@[p],
            final(v)@[q],
        ) by {
            let s = final(v)@;
            if q < i {
                assert(s[p] == old_v[p] && s[q] == old_v[q]);
            } else if p > i {
                assert(s[p] == old_v[p - 1] && s[q] == old_v[q - 1]);
            } else if p < i && q == i {
                assert(s[p] == old_v[p] && s[q] == t);
            } else if p == i && q > i {
                assert(s[p] == t && s[q] == old_v[q - 1]);
                if q - 1 > i {
                    assert(ticket_lt(old_v[i as int], old_v[q - 1]));
                }
                lemma_ticket_lt_key(t, old_v[q - 1]);
                if q - 1 == i {
                    assert(!ticket_lt(old_v[i as int], t));
                    lemma_ticket_lt_key(t, old_v[i as int]);
                } else {
                    lemma_ticket_lt_trans(t, old_v[i as int], old_v[q - 1]);
                }
            } else if p < i && q > i {
                assert(s[p] == old_v[p] && s[q] == old_v[q - 1]);
                if p < q - 1 {
                    assert(ticket_lt(old_v[p], old_v[q - 1]));
                }
            }
        }
        lemma_keys_insert(old_v, i as int, t);
        assert forall|x: Ticket| old_v.contains(x) implies final(v)@.contains(x) by {
            let j = choose|j: int| 0 <= j < old_v.len() && old_v[j] == x;
            if j < i {
                assert(final(v)@[j] == x);
            } else {
                assert(final(v)@[j + 1] == x);
            }
        }
    }
}

/// Inserting into a ticket sequence adds exactly one identity to its
/// key set.
proof fn lemma_keys_insert(s: Seq<Ticket>, i: int, t: Ticket)
    requires
        0 <= i <= s.len(),
    ensures
        ticket_keys(s.insert(i, t)) =~= ticket_keys(s).insert(ticket_key(t)),
{
    let f = |x: Ticket| ticket_key(x);
    let s2 = s.insert(i, t);
    assert forall|k: (Seq<u8>, int)| ticket_keys(s2).contains(k) implies ticket_keys(s).insert(
        f(t),
    ).contains(k) by {
        let m = s2.map_values(f);
        let j = choose|j: int| 0 <= j < m.len() && m[j] == k;
        if j < i {
            assert(s.map_values(f)[j] == k);
        } else if j > i {
            assert(s.map_values(f)[j - 1] == k);
        }
    }
    assert forall|k: (Seq<u8>, int)| ticket_keys(s).insert(f(t)).contains(k) implies ticket_keys(
        s2,
    ).contains(k) by {
        if ticket_keys(s).contains(k) {
            let m = s.map_values(f);
            let j = choose|j: int| 0 <= j < m.len() && m[j] == k;
            if j < i {
                assert(s2.map_values(f)[j] == k);
            } else {
                assert(s2.map_values(f)[j + 1] == k);
            }
        } else {
            assert(s2.map_values(f)[i] == k);
        }
    }
}

/// A strictly sorted ticket sequence has pairwise distinct identities.
pub proof fn lemma_sorted_distinct_keys(s: Seq<Ticket>)
    requires
        tickets_sorted(s),
    ensures
        forall|i: int, j: int|
            0 <= i < s.len() && 0 <= j < s.len() && i != j ==> ticket_key(s[i]) != ticket_key(s[j]),
{
    assert forall|i: int, j: int|
        0 <= i < s.len() && 0 <= j < s.len() && i != j implies ticket_key(s[i]) != ticket_key(
        s[j],
    ) by {
        if i < j {
            lemma_ticket_lt_key(s[i], s[j]);
        } else {
            lemma_ticket_lt_key(s[j], s[i]);
        }
    }
}

} // verus!
