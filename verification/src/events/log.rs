//! Bookkeeping of the durable event log: the sequence high-water mark and
//! how far every durable subscriber of a topic has read.

use vstd::prelude::*;

verus! {

/// The largest of `s`; 0 when `s` is empty.
pub open spec fn max_of(s: Seq<u64>) -> u64
    decreases s.len(),
{
    if s.len() == 0 {
        0
    } else {
        let m = max_of(s.drop_last());
        if s.last() > m {
            s.last()
        } else {
            m
        }
    }
}

/// The smallest of `s`, a missing cursor counting as 0; `None` when `s` is
/// empty.
pub open spec fn min_cursor_of(s: Seq<Option<u64>>) -> Option<u64>
    decreases s.len(),
{
    if s.len() == 0 {
        None
    } else {
        let x = match s.last() {
            Some(v) => v,
            None => 0,
        };
        match min_cursor_of(s.drop_last()) {
            Some(m) => Some(if x < m { x } else { m }),
            None => Some(x),
        }
    }
}

/// The sequence high-water mark: the larger of the stored counter (0 when
/// there is none) and the largest sequence number still in the log. Taking
/// both survives the log's garbage collection.
pub fn seq_highwater(counter: Option<u64>, log_seqs: &Vec<u64>) -> (r: u64)
    ensures
        r == ({
            let c = match counter {
                Some(v) => v,
                None => 0,
            };
            if c > max_of(log_seqs@) {
                c
            } else {
                max_of(log_seqs@)
            }
        }),
{
    let mut m: u64 = 0;
    let mut i: usize = 0;
    while i < log_seqs.len()
        invariant
            i <= log_seqs@.len(),
            m == max_of(log_seqs@.take(i as int)),
        decreases log_seqs@.len() - i,
    {
        proof {
            assert(log_seqs@.take(i + 1).drop_last() =~= log_seqs@.take(i as int));
        }
        if log_seqs[i] > m {
            m = log_seqs[i];
        }
        i += 1;
    }
    proof {
        assert(log_seqs@.take(log_seqs@.len() as int) =~= log_seqs@);
    }
    let c = match counter {
        Some(v) => v,
        None => 0,
    };
    if c > m {
        c
    } else {
        m
    }
}

/// The lowest cursor among the durable subscribers of a topic, given each
/// one's last processed sequence number (`None` for a subscriber without a
/// cursor, which counts as 0); `None` when there are no subscribers. Events
/// up to it have been read by all and may be collected.
pub fn min_cursor_seq(last_seqs: &Vec<Option<u64>>) -> (r: Option<u64>)
    ensures
        r == min_cursor_of(last_seqs@),
{
    let mut m: Option<u64> = None;
    let mut i: usize = 0;
    while i < last_seqs.len()
        invariant
            i <= last_seqs@.len(),
            m == min_cursor_of(last_seqs@.take(i as int)),
        decreases last_seqs@.len() - i,
    {
        proof {
            assert(last_seqs@.take(i + 1).drop_last() =~= last_seqs@.take(i as int));
        }
        let x = match last_seqs[i] {
            Some(v) => v,
            None => 0,
        };
        m = match m {
            Some(cur) => Some(if x < cur { x } else { cur }),
            None => Some(x),
        };
        i += 1;
    }
    proof {
        assert(last_seqs@.take(last_seqs@.len() as int) =~= last_seqs@);
    }
    m
}

/// The high-water mark is at least every sequence number still in the log,
/// so sequence numbers handed out after a restart never repeat one there.
pub proof fn law_highwater_covers_log(s: Seq<u64>, i: int)
    requires
        0 <= i < s.len(),
    ensures
        s[i] <= max_of(s),
    decreases s.len(),
{
    if i < s.len() - 1 {
        law_highwater_covers_log(s.drop_last(), i);
        assert(s.drop_last()[i] == s[i]);
    }
}

/// The collection point never passes a durable subscriber: it is at most
/// every subscriber's cursor (a missing cursor counting as 0).
pub proof fn law_min_cursor_below_each(s: Seq<Option<u64>>, i: int)
    requires
        0 <= i < s.len(),
    ensures
        min_cursor_of(s) matches Some(m) && m <= match s[i] {
            Some(v) => v,
            None => 0,
        },
    decreases s.len(),
{
    if i < s.len() - 1 {
        law_min_cursor_below_each(s.drop_last(), i);
        assert(s.drop_last()[i] == s[i]);
    }
}

} // verus!
