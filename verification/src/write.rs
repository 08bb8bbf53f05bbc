//! Safe writes: drift check and validate-then-write.
//!
//! The safety contract is simply: **never make a file's syntax worse.** An
//! edit is refused if the file drifted since the read it was based on
//! (strict, file-level), or if it would introduce new parse errors; otherwise
//! the new content may be written. The write itself (atomic replace,
//! permissions, symlinks) is the caller's I/O.

use vstd::prelude::*;
use vstd::utf8::encode_utf8;

use crate::hash::{file_hash, file_hash_spec};
use crate::reader::{dialect_name, dialect_name_spec, Dialect};

verus! {

#[verifier::external_type_specification]
#[verifier::external_body]
pub struct ExIoError(std::io::Error);

/// Why a safe write was refused.
#[derive(Debug)]
pub enum WriteError {
    /// The file changed since the read the edit was based on: its current
    /// file-level hash does not match the expected one.
    Drift {
        /// The file hash the edit was based on.
        expected: String,
        /// The file's current hash.
        actual: String,
    },
    /// The edit would introduce parse errors not present before it, compared
    /// by the parser's position-stable error kind, not by count. Each string is
    /// a newly-introduced error's human-readable form.
    NewParseErrors {
        /// The errors the edit would newly introduce.
        introduced: Vec<String>,
    },
    /// A filesystem error while reading or writing.
    Io(std::io::Error),
}

/// What `lispexp::parse` reports for `source` under the preset for the
/// dialect named `dialect`: for each diagnostic in order, its kind's debug
/// form (which tells kinds apart exactly as their equality does) and its
/// message.
pub uninterp spec fn diagnostics(source: Seq<char>, dialect: Seq<char>) -> Seq<(Seq<char>, Seq<char>)>;

/// `lispexp::parse`'s diagnostics of `source`, each as its kind's debug form
/// and its message. The contract names them.
#[verifier::external_body]
fn lx_diagnostics(source: &str, dialect: &str) -> (r: Vec<(String, String)>)
    ensures
        r@.len() == diagnostics(source@, dialect@).len(),
        forall|k: int|
            0 <= k < r@.len() ==> (#[trigger] r@[k]).0@ == diagnostics(source@, dialect@)[k].0
                && r@[k].1@ == diagnostics(source@, dialect@)[k].1,
{
    let opts = lispexp::Options::for_dialect(dialect.parse().unwrap_or(lispexp::Dialect::SchemeSuperset));
    lispexp::parse(source, &opts).errors.iter().map(|e| (format!("{:?}", e.kind), e.kind.to_string())).collect()
}

/// How many diagnostics of `ds` have kind `k`.
pub open spec fn kind_count(ds: Seq<(Seq<char>, Seq<char>)>, k: Seq<char>) -> nat
    decreases ds.len(),
{
    if ds.len() == 0 {
        0
    } else {
        kind_count(ds.drop_last(), k) + if ds.last().0 == k {
            1nat
        } else {
            0
        }
    }
}

/// The messages of the diagnostics in `after` beyond those already in
/// `before`, compared as a multiset of kinds: the `j`-th diagnostic of a kind
/// is new when `before` has fewer than `j` of that kind.
pub open spec fn introduced(before: Seq<(Seq<char>, Seq<char>)>, after: Seq<(Seq<char>, Seq<char>)>) -> Seq<Seq<char>>
    decreases after.len(),
{
    if after.len() == 0 {
        Seq::empty()
    } else {
        let rest = introduced(before, after.drop_last());
        if kind_count(after, after.last().0) > kind_count(before, after.last().0) {
            rest.push(after.last().1)
        } else {
            rest
        }
    }
}

/// How many of `ds[..n]` have kind `k`.
fn count_kind(ds: &Vec<(String, String)>, n: usize, k: &String) -> (c: usize)
    requires
        n <= ds@.len(),
    ensures
        c == kind_count(ds@.take(n as int).map_values(|p: (String, String)| (p.0@, p.1@)), k@),
{
    let ghost view = ds@.map_values(|p: (String, String)| (p.0@, p.1@));
    let mut c: usize = 0;
    let mut i: usize = 0;
    while i < n
        invariant
            n <= ds@.len(),
            i <= n,
            view == ds@.map_values(|p: (String, String)| (p.0@, p.1@)),
            c == kind_count(ds@.take(i as int).map_values(|p: (String, String)| (p.0@, p.1@)), k@),
            c <= i,
        decreases n - i,
    {
        let same = ds[i].0 == *k;
        if same {
            c = c + 1;
        }
        assert(ds@.take(i + 1).map_values(|p: (String, String)| (p.0@, p.1@)).drop_last() == ds@.take(
            i as int,
        ).map_values(|p: (String, String)| (p.0@, p.1@)));
        i = i + 1;
    }
    c
}

/// The messages of the diagnostics in `after` beyond those in `before`.
fn newly_introduced(before: &Vec<(String, String)>, after: &Vec<(String, String)>) -> (r: Vec<String>)
    ensures
        r@.len() == introduced(
            before@.map_values(|p: (String, String)| (p.0@, p.1@)),
            after@.map_values(|p: (String, String)| (p.0@, p.1@)),
        ).len(),
        forall|k: int|
            0 <= k < r@.len() ==> (#[trigger] r@[k])@ == introduced(
                before@.map_values(|p: (String, String)| (p.0@, p.1@)),
                after@.map_values(|p: (String, String)| (p.0@, p.1@)),
            )[k],
{
    let ghost bv = before@.map_values(|p: (String, String)| (p.0@, p.1@));
    let ghost av = after@.map_values(|p: (String, String)| (p.0@, p.1@));
    assert(before@.take(before@.len() as int) == before@);
    let mut r: Vec<String> = Vec::new();
    let mut j: usize = 0;
    while j < after.len()
        invariant
            bv == before@.map_values(|p: (String, String)| (p.0@, p.1@)),
            av == after@.map_values(|p: (String, String)| (p.0@, p.1@)),
            before@.take(before@.len() as int) == before@,
            j <= after@.len(),
            r@.len() == introduced(bv, av.take(j as int)).len(),
            forall|k: int| 0 <= k < r@.len() ==> (#[trigger] r@[k])@ == introduced(bv, av.take(j as int))[k],
        decreases after.len() - j,
    {
        let k = &after[j].0;
        let ca = count_kind(after, j + 1, k);
        let cb = count_kind(before, before.len(), k);
        let ghost prefix = av.take(j + 1);
        proof {
            assert(after@.take(j + 1).map_values(|p: (String, String)| (p.0@, p.1@)) == prefix);
            assert(prefix.drop_last() == av.take(j as int));
            assert(prefix.last() == (after@[j as int].0@, after@[j as int].1@));
        }
        if ca > cb {
            r.push(after[j].1.clone());
        }
        j = j + 1;
    }
    assert(av.take(j as int) == av);
    r
}

/// What a safe-write check concludes.
pub enum WriteCheck {
    Clean,
    Drift(Seq<char>, Seq<char>),
    NewParseErrors(Seq<Seq<char>>),
}

/// The check before writing `new_content` over `current`: the file must
/// still hash to `expected`, and the edit may not introduce parse errors.
pub open spec fn write_check(current: Seq<char>, expected: Seq<char>, new_content: Seq<char>, dialect: Seq<char>) -> WriteCheck {
    let actual = file_hash_spec(encode_utf8(current));
    if actual != expected {
        WriteCheck::Drift(expected, actual)
    } else {
        let intro = introduced(diagnostics(current, dialect), diagnostics(new_content, dialect));
        if intro.len() > 0 {
            WriteCheck::NewParseErrors(intro)
        } else {
            WriteCheck::Clean
        }
    }
}

/// Whether `r` is what the check concludes.
pub open spec fn check_matches(r: Result<(), WriteError>, c: WriteCheck) -> bool {
    match (r, c) {
        (Ok(()), WriteCheck::Clean) => true,
        (Err(WriteError::Drift { expected, actual }), WriteCheck::Drift(e, a)) => expected@ == e && actual@ == a,
        (Err(WriteError::NewParseErrors { introduced }), WriteCheck::NewParseErrors(i)) => introduced@.len()
            == i.len() && forall|k: int| 0 <= k < i.len() ==> (#[trigger] introduced@[k])@ == i[k],
        _ => false,
    }
}

/// Verify no drift and that the edit introduces no new parse errors: the
/// decision of a safe write over the file's `current` content, before the
/// caller writes `new_content`.
pub fn check_write(current: &str, expected_file_hash: &str, new_content: &str, dialect: Dialect) -> (r: Result<(), WriteError>)
    ensures
        check_matches(r, write_check(current@, expected_file_hash@, new_content@, dialect_name_spec(dialect))),
{
    let cb = current.as_bytes();
    assert(cb@ == encode_utf8(current@));
    let actual = file_hash(cb);
    let ac = crate::text::chars_of(actual.as_str());
    let ec = crate::text::chars_of(expected_file_hash);
    if !crate::text::seq_eq(ac.as_slice(), ec.as_slice()) {
        return Err(WriteError::Drift { expected: String::from_str(expected_file_hash), actual });
    }
    let dname = dialect_name(dialect);
    let before = lx_diagnostics(current, dname);
    let after = lx_diagnostics(new_content, dname);
    proof {
        assert(before@.map_values(|p: (String, String)| (p.0@, p.1@)) =~= diagnostics(current@, dname@));
        assert(after@.map_values(|p: (String, String)| (p.0@, p.1@)) =~= diagnostics(new_content@, dname@));
    }
    let introduced = newly_introduced(&before, &after);
    if introduced.len() > 0 {
        return Err(WriteError::NewParseErrors { introduced });
    }
    Ok(())
}


/// The reader's diagnostics of `source` read as `dialect`: each as its
/// kind's debug form and its message, in the reader's order. A file with
/// none parses cleanly.
pub fn parse_diagnostics(source: &str, dialect: Dialect) -> (r: Vec<(String, String)>)
    ensures
        r@.len() == diagnostics(source@, dialect_name_spec(dialect)).len(),
        forall|k: int|
            0 <= k < r@.len() ==> (#[trigger] r@[k]).0@ == diagnostics(source@, dialect_name_spec(dialect))[k].0
                && r@[k].1@ == diagnostics(source@, dialect_name_spec(dialect))[k].1,
{
    lx_diagnostics(source, dialect_name(dialect))
}


proof fn lemma_introduced_nonempty(before: Seq<(Seq<char>, Seq<char>)>, after: Seq<(Seq<char>, Seq<char>)>)
    ensures
        introduced(before, after).len() > 0 <==> exists|k: Seq<char>|
            kind_count(after, k) > kind_count(before, k),
    decreases after.len(),
{
    if after.len() > 0 {
        let rest = after.drop_last();
        lemma_introduced_nonempty(before, rest);
        let last = after.last().0;
        if introduced(before, after).len() > 0 {
            if kind_count(after, last) > kind_count(before, last) {
            } else {
                let k = choose|k: Seq<char>| kind_count(rest, k) > kind_count(before, k);
                assert(kind_count(after, k) >= kind_count(rest, k));
            }
        }
        if exists|k: Seq<char>| kind_count(after, k) > kind_count(before, k) {
            let k = choose|k: Seq<char>| kind_count(after, k) > kind_count(before, k);
            if k != last {
                assert(kind_count(rest, k) > kind_count(before, k));
            }
        }
    }
}

/// The safe-write check: when the file no longer hashes to the expected
/// hash, the answer is a drift naming both hashes; otherwise the write is
/// refused for new parse errors exactly when, for some kind, the new
/// content has more diagnostics of it than the current content (the
/// multiset of kinds is not contained in the current one), and is clean
/// otherwise.
pub proof fn law_write_check(current: Seq<char>, expected: Seq<char>, new_content: Seq<char>, dialect: Seq<char>)
    ensures
        file_hash_spec(encode_utf8(current)) != expected ==> write_check(current, expected, new_content, dialect)
            == WriteCheck::Drift(expected, file_hash_spec(encode_utf8(current))),
        file_hash_spec(encode_utf8(current)) == expected ==> (write_check(
            current,
            expected,
            new_content,
            dialect,
        ) is NewParseErrors <==> exists|k: Seq<char>|
            kind_count(diagnostics(new_content, dialect), k) > kind_count(diagnostics(current, dialect), k)),
        file_hash_spec(encode_utf8(current)) == expected ==> (write_check(
            current,
            expected,
            new_content,
            dialect,
        ) is Clean <==> forall|k: Seq<char>|
            kind_count(diagnostics(new_content, dialect), k) <= kind_count(diagnostics(current, dialect), k)),
{
    lemma_introduced_nonempty(diagnostics(current, dialect), diagnostics(new_content, dialect));
}

} // verus!
