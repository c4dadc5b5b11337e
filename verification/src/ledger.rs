//! The enforcement ledger: an append-only JSON-lines file. Each applied
//! enforcement adds one record line; `status` shows the last lines.

use vstd::prelude::*;
use vstd::string::{StringExecFns, StrSliceExecFns};

verus! {

/// How many newline characters `s` holds.
pub open spec fn newline_count(s: Seq<char>) -> nat
    decreases s.len(),
{
    if s.len() == 0 {
        0
    } else {
        newline_count(s.drop_last()) + if s.last() == '\n' {
            1nat
        } else {
            0
        }
    }
}

/// How many lines a text has, counted as line-by-line reading counts them:
/// every newline ends a line, and a non-empty tail without one is a line too.
pub open spec fn line_count(s: Seq<char>) -> nat {
    newline_count(s) + if s.len() > 0 && s.last() != '\n' {
        1nat
    } else {
        0
    }
}

/// The text that appending `record` to the ledger writes: the record and a
/// newline.
pub open spec fn ledger_entry(record: Seq<char>) -> Seq<char> {
    record.push('\n')
}

/// The ledger text for one record: the record followed by a newline. A
/// record that itself holds a newline would not be one line, and is refused.
pub fn ledger_line(record: &str) -> (r: Option<String>)
    ensures
        match r {
            Some(line) => newline_count(record@) == 0 && line@ == ledger_entry(record@),
            None => newline_count(record@) > 0,
        },
        // a record without a newline character is always accepted, as itself
        // followed by one newline
        (forall|i: int| 0 <= i < record@.len() ==> #[trigger] record@[i] != '\n') ==> (r matches Some(
            line,
        ) && line@ == record@.push('\n')),
        // and only a record holding one is refused
        r is None ==> exists|i: int| 0 <= i < record@.len() && #[trigger] record@[i] == '\n',
{
    proof {
        lemma_newline_count_counts_newlines(record@);
    }
    let len = record.unicode_len();
    let mut i: usize = 0;
    while i < len
        invariant
            len == record@.len(),
            i <= len,
            newline_count(record@.take(i as int)) == 0,
        decreases len - i,
    {
        assert(record@.take(i + 1).drop_last() =~= record@.take(i as int));
        if record.get_char(i) == '\n' {
            proof {
                assert(record@ =~= record@.take(i + 1) + record@.skip(i + 1));
                lemma_newline_count_concat(record@.take(i + 1), record@.skip(i + 1));
            }
            return None;
        }
        i = i + 1;
    }
    assert(record@.take(i as int) =~= record@);
    let mut line = record.to_owned();
    line.append("\n");
    proof {
        reveal_strlit("\n");
        assert(line@ =~= record@.push('\n'));
    }
    Some(line)
}

/// The last `n` of `lines` (all of them when there are fewer), in order.
pub fn tail(lines: &[String], n: usize) -> (r: Vec<String>)
    ensures
        r@ == lines@.skip(lines@.len() - if n < lines@.len() {
            n as int
        } else {
            lines@.len() as int
        }),
        r@.len() == if n < lines@.len() {
            n as int
        } else {
            lines@.len() as int
        },
{
    let start = lines.len().saturating_sub(n);
    let mut out: Vec<String> = Vec::new();
    let mut i: usize = start;
    while i < lines.len()
        invariant
            start <= i <= lines@.len(),
            start == lines@.len() - if n < lines@.len() {
                n as int
            } else {
                lines@.len() as int
            },
            out@ == lines@.subrange(start as int, i as int),
        decreases lines@.len() - i,
    {
        out.push(lines[i].clone());
        assert(lines@.subrange(start as int, i + 1) =~= lines@.subrange(start as int, i as int).push(
            lines@[i as int],
        ));
        i = i + 1;
    }
    assert(lines@.subrange(start as int, i as int) =~= lines@.skip(start as int));
    out
}

/// Counting newlines adds up over concatenation.
pub proof fn lemma_newline_count_concat(a: Seq<char>, b: Seq<char>)
    ensures
        newline_count(a + b) == newline_count(a) + newline_count(b),
    decreases b.len(),
{
    if b.len() == 0 {
        assert(a + b =~= a);
    } else {
        lemma_newline_count_concat(a, b.drop_last());
        assert((a + b).drop_last() =~= a + b.drop_last());
    }
}

/// Appending a record never lowers the ledger's line count.
pub proof fn lemma_append_never_shrinks(content: Seq<char>, record: Seq<char>)
    ensures
        line_count(content + ledger_entry(record)) >= line_count(content),
{
    lemma_newline_count_concat(content, ledger_entry(record));
    assert(ledger_entry(record).drop_last() =~= record);
    let all = content + ledger_entry(record);
    assert(all.last() == '\n');
}

/// On a ledger whose lines are all complete, appending a one-line record
/// adds exactly one line.
pub proof fn lemma_append_adds_one_line(content: Seq<char>, record: Seq<char>)
    requires
        content.len() == 0 || content.last() == '\n',
        newline_count(record) == 0,
    ensures
        line_count(content + ledger_entry(record)) == line_count(content) + 1,
{
    lemma_newline_count_concat(content, ledger_entry(record));
    assert(ledger_entry(record).drop_last() =~= record);
    let all = content + ledger_entry(record);
    assert(all.last() == '\n');
}

/// The ledger text after appending `records`, in order, to `content`.
pub open spec fn appended(content: Seq<char>, records: Seq<Seq<char>>) -> Seq<char>
    decreases records.len(),
{
    if records.len() == 0 {
        content
    } else {
        appended(content, records.drop_last()) + ledger_entry(records.last())
    }
}

/// The ledger is append-only: starting from complete lines, appending
/// one-line records adds exactly one line per record, and every earlier
/// ledger text stays a prefix of every later one.
pub proof fn lemma_appends_add_one_line_each(content: Seq<char>, records: Seq<Seq<char>>)
    requires
        content.len() == 0 || content.last() == '\n',
        forall|i: int| 0 <= i < records.len() ==> newline_count(#[trigger] records[i]) == 0,
    ensures
        line_count(appended(content, records)) == line_count(content) + records.len(),
        appended(content, records).len() == 0 || appended(content, records).last() == '\n',
        forall|k: int|
            0 <= k <= records.len() ==> (#[trigger] appended(content, records.take(k))).is_prefix_of(
                appended(content, records),
            ),
    decreases records.len(),
{
    if records.len() == 0 {
        assert forall|k: int| 0 <= k <= records.len() implies (#[trigger] appended(
            content,
            records.take(k),
        )).is_prefix_of(appended(content, records)) by {
            assert(records.take(k) =~= records);
        }
    } else {
        let rs = records.drop_last();
        assert forall|i: int| 0 <= i < rs.len() implies newline_count(#[trigger] rs[i]) == 0 by {
            assert(rs[i] == records[i]);
        }
        lemma_appends_add_one_line_each(content, rs);
        let before = appended(content, rs);
        assert(newline_count(records[records.len() - 1]) == 0);
        lemma_append_adds_one_line(before, records.last());
        let after = appended(content, records);
        assert(ledger_entry(records.last()).last() == '\n');
        assert(after.last() == '\n');
        assert forall|k: int| 0 <= k <= records.len() implies (#[trigger] appended(
            content,
            records.take(k),
        )).is_prefix_of(after) by {
            if k == records.len() {
                assert(records.take(k) =~= records);
                assert(after.subrange(0, after.len() as int) =~= after);
            } else {
                assert(records.take(k) =~= rs.take(k));
                let a = appended(content, rs.take(k));
                assert(a.is_prefix_of(before));
                assert(after.subrange(0, a.len() as int) =~= before.subrange(0, a.len() as int));
            }
        }
    }
}

/// A single character counts one newline exactly when it is `'\n'`.
pub proof fn lemma_newline_count_single(c: char)
    ensures
        newline_count(seq![c]) == if c == '\n' {
            1nat
        } else {
            0nat
        },
{
    assert(seq![c].drop_last() =~= Seq::<char>::empty());
    assert(seq![c].last() == c);
    assert(newline_count(Seq::<char>::empty()) == 0);
    assert(newline_count(seq![c].drop_last()) == 0);
}

/// A text counts no newlines exactly when no character of it is `'\n'`, and
/// never counts more newlines than it has characters.
pub proof fn lemma_newline_count_counts_newlines(s: Seq<char>)
    ensures
        newline_count(s) == 0 <==> forall|i: int| 0 <= i < s.len() ==> #[trigger] s[i] != '\n',
        newline_count(s) <= s.len(),
    decreases s.len(),
{
    if s.len() > 0 {
        let p = s.drop_last();
        lemma_newline_count_counts_newlines(p);
        if newline_count(s) == 0 {
            assert forall|i: int| 0 <= i < s.len() implies #[trigger] s[i] != '\n' by {
                if i < s.len() - 1 {
                    assert(s[i] == p[i]);
                }
            }
        } else {
            if s.last() != '\n' {
                let i = choose|i: int| 0 <= i < p.len() && #[trigger] p[i] == '\n';
                assert(s[i] == p[i]);
            } else {
                assert(s[s.len() - 1] == '\n');
            }
        }
    }
}

} // verus!
