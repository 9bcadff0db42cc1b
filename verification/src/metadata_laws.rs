//! What setting metadata does, entry by entry, and the order it is kept in.
use vstd::prelude::*;
use crate::lex::{lemma_text_total, lex_lt};
use crate::schema::{entries_set, key_rank, keys_ascending, lemma_entries_set_ascending, lemma_key_rank};

verus! {

/// Whether byte strings agree up to `n`, where the first ends or has the lesser
/// byte.
pub open spec fn parts_at(a: Seq<u8>, b: Seq<u8>, n: int) -> bool {
    &&& 0 <= n <= a.len()
    &&& n < b.len()
    &&& forall|i: int| #![trigger a[i]] 0 <= i < n ==> a[i] == b[i]
    &&& n == a.len() || a[n] < b[n]
}

/// A byte string comes before another exactly where they agree up to a place at
/// which the first ends or has the lesser byte.
pub proof fn law_order_is_by_bytes(a: Seq<u8>, b: Seq<u8>)
    ensures
        lex_lt(a, b) <==> exists|n: int| #[trigger] parts_at(a, b, n),
    decreases a.len(),
{
    if a.len() > 0 && b.len() > 0 && a[0] == b[0] {
        let x = a.drop_first();
        let y = b.drop_first();
        law_order_is_by_bytes(x, y);
        if lex_lt(a, b) {
            let n = choose|n: int| #[trigger] parts_at(x, y, n);
            assert(parts_at(a, b, n + 1)) by {
                assert forall|i: int| #![trigger a[i]] 0 <= i < n + 1 implies a[i] == b[i] by {
                    if i > 0 {
                        assert(x[i - 1] == y[i - 1]);
                    }
                }
            }
        }
        if exists|n: int| #[trigger] parts_at(a, b, n) {
            let n = choose|n: int| #[trigger] parts_at(a, b, n);
            assert(n > 0);
            assert(parts_at(x, y, n - 1)) by {
                assert forall|i: int| #![trigger x[i]] 0 <= i < n - 1 implies x[i] == y[i] by {
                    assert(a[i + 1] == b[i + 1]);
                }
            }
        }
    } else {
        if lex_lt(a, b) {
            assert(parts_at(a, b, 0));
        }
        if exists|n: int| #[trigger] parts_at(a, b, n) {
            let n = choose|n: int| #[trigger] parts_at(a, b, n);
            if n > 0 {
                assert(a[0] == b[0]);
            }
        }
    }
}

/// Setting a key gives it the value and leaves every other key its own; the key
/// stands once, and the keys stay in order.
pub proof fn law_setting_sets(entries: Seq<(Seq<char>, Seq<char>)>, key: Seq<char>, value: Seq<char>)
    requires
        keys_ascending(entries),
    ensures
        ({
            let out = entries_set(entries, key, value);
            &&& keys_ascending(out)
            &&& out.contains((key, value))
            &&& forall|e: (Seq<char>, Seq<char>)|
                #![trigger out.contains(e)]
                out.contains(e) <==> e == (key, value) || (e.0 != key && entries.contains(e))
        }),
{
    lemma_key_rank(entries, key);
    lemma_entries_set_ascending(entries, key, value);
    let at = key_rank(entries, key) as int;
    let out = entries_set(entries, key, value);
    let replaced = at < entries.len() && entries[at].0 == key;
    assert(out[at] == (key, value));
    assert forall|i: int| #![trigger entries[i]] 0 <= i < entries.len() && !(replaced && i == at) implies entries[i].0
        != key by {
        if i < at {
            lemma_text_total(entries[i].0, key);
        } else if i > at {
            lemma_text_total(entries[at].0, entries[i].0);
        }
    }
    assert forall|e: (Seq<char>, Seq<char>)| #![trigger out.contains(e)] out.contains(e) <==> e == (key, value) || (e.0
        != key && entries.contains(e)) by {
        if out.contains(e) {
            let i = choose|i: int| 0 <= i < out.len() && out[i] == e;
            if i != at {
                let j = if replaced || i < at {
                    i
                } else {
                    i - 1
                };
                assert(out[i] == entries[j]);
            }
        }
        if e.0 != key && entries.contains(e) {
            let j = choose|j: int| 0 <= j < entries.len() && entries[j] == e;
            let i = if replaced || j < at {
                j
            } else {
                j + 1
            };
            assert(out[i] == entries[j]);
        }
    }
}

} // verus!
