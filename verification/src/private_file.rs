//! Writing a private file so that its content is never readable by others and
//! never half written: an empty temporary file is narrowed to its owner before a
//! byte goes in, synced, and only then renamed over the target.
use crate::path;
use crate::text;
use vstd::prelude::*;
use vstd::string::*;

verus! {

/// The step to be done next, or how the write ended.
#[derive(Debug, Clone, Copy, PartialEq, Eq, Structural)]
pub enum PrivateWrite {
    /// Make the directory.
    MakeDir,
    /// Create the temporary file, empty.
    Create,
    /// Narrow its mode to the owner.
    Narrow,
    /// Write the content.
    Fill,
    /// Sync it to disk.
    Sync,
    /// Rename it over the target.
    Publish,
    /// Remove the temporary file after a failed rename.
    Discard,
    /// The target holds the content.
    Done,
    /// The target is as it was.
    Failed,
}

impl PrivateWrite {
    /// The step after this one, given whether this one went well. `tidy` asks that
    /// a failed rename removes the temporary file.
    pub open spec fn after(self, ok: bool, tidy: bool) -> PrivateWrite {
        match self {
            PrivateWrite::MakeDir => if ok {
                PrivateWrite::Create
            } else {
                PrivateWrite::Failed
            },
            PrivateWrite::Create => if ok {
                PrivateWrite::Narrow
            } else {
                PrivateWrite::Failed
            },
            PrivateWrite::Narrow => if ok {
                PrivateWrite::Fill
            } else {
                PrivateWrite::Failed
            },
            PrivateWrite::Fill => if ok {
                PrivateWrite::Sync
            } else {
                PrivateWrite::Failed
            },
            PrivateWrite::Sync => if ok {
                PrivateWrite::Publish
            } else {
                PrivateWrite::Failed
            },
            PrivateWrite::Publish => if ok {
                PrivateWrite::Done
            } else if tidy {
                PrivateWrite::Discard
            } else {
                PrivateWrite::Failed
            },
            PrivateWrite::Discard => PrivateWrite::Failed,
            PrivateWrite::Done => PrivateWrite::Done,
            PrivateWrite::Failed => PrivateWrite::Failed,
        }
    }

    /// The step after this one, given whether this one went well.
    pub fn next(self, ok: bool, tidy: bool) -> (r: PrivateWrite)
        ensures
            r == self.after(ok, tidy),
    {
        match self {
            PrivateWrite::Publish => {
                if ok {
                    PrivateWrite::Done
                } else if tidy {
                    PrivateWrite::Discard
                } else {
                    PrivateWrite::Failed
                }
            },
            PrivateWrite::Discard => PrivateWrite::Failed,
            PrivateWrite::Done => PrivateWrite::Done,
            _ => {
                if !ok {
                    return PrivateWrite::Failed;
                }
                match self {
                    PrivateWrite::MakeDir => PrivateWrite::Create,
                    PrivateWrite::Create => PrivateWrite::Narrow,
                    PrivateWrite::Narrow => PrivateWrite::Fill,
                    PrivateWrite::Fill => PrivateWrite::Sync,
                    PrivateWrite::Sync => PrivateWrite::Publish,
                    _ => PrivateWrite::Failed,
                }
            },
        }
    }
}

/// The step that a write has come to, given how its steps went so far.
pub open spec fn reached(outcomes: Seq<bool>, tidy: bool) -> PrivateWrite
    decreases outcomes.len(),
{
    if outcomes.len() == 0 {
        PrivateWrite::MakeDir
    } else {
        reached(outcomes.drop_last(), tidy).after(outcomes.last(), tidy)
    }
}

/// Content is written only into a file whose mode was narrowed before, and the
/// target is replaced only by a file that was narrowed, filled and synced, each
/// of them with success.
pub proof fn content_is_narrowed_before_it_exists(outcomes: Seq<bool>, tidy: bool)
    ensures
        reached(outcomes, tidy) == PrivateWrite::Fill ==> outcomes.len() == 3 && outcomes[2]
            && reached(outcomes.drop_last(), tidy) == PrivateWrite::Narrow,
        reached(outcomes, tidy) == PrivateWrite::Publish ==> outcomes.len() == 5 && forall|i: int|
            0 <= i < 5 ==> outcomes[i],
        reached(outcomes, tidy) == PrivateWrite::Done ==> outcomes.len() >= 6 && forall|i: int|
            0 <= i < 6 ==> outcomes[i],
    decreases outcomes.len(),
{
    reveal_with_fuel(reached, 7);
    if outcomes.len() > 0 {
        let o = outcomes.drop_last();
        content_is_narrowed_before_it_exists(o, tidy);
        if outcomes.len() > 6 {
            assert(forall|i: int| 0 <= i < 6 ==> outcomes[i] == o[i]);
        }
        stage_is_a_count(outcomes, tidy);
    }
}

/// Each step before the rename is reached by that many successes and no failure.
proof fn stage_is_a_count(outcomes: Seq<bool>, tidy: bool)
    ensures
        ({
            let at = reached(outcomes, tidy);
            let all = forall|i: int| 0 <= i < outcomes.len() ==> outcomes[i];
            &&& at == PrivateWrite::MakeDir ==> outcomes.len() == 0
            &&& at == PrivateWrite::Create ==> outcomes.len() == 1 && all
            &&& at == PrivateWrite::Narrow ==> outcomes.len() == 2 && all
            &&& at == PrivateWrite::Fill ==> outcomes.len() == 3 && all
            &&& at == PrivateWrite::Sync ==> outcomes.len() == 4 && all
            &&& at == PrivateWrite::Publish ==> outcomes.len() == 5 && all
        }),
    decreases outcomes.len(),
{
    if outcomes.len() > 0 {
        let o = outcomes.drop_last();
        stage_is_a_count(o, tidy);
        assert(forall|i: int| 0 <= i < o.len() ==> outcomes[i] == o[i]);
    }
}

/// The name of the temporary file beside `target`: a dot, the target's own name
/// (or `fallback` where it has none), `mark` and the number of the process.
pub open spec fn temp_text(
    target: Seq<u8>,
    fallback: Seq<char>,
    mark: Seq<char>,
    pid: nat,
) -> Seq<char> {
    "."@ + (match path::final_component(target) {
        Some(name) => path::utf8_lossy(name),
        None => fallback,
    }) + mark + text::decimal(pid)
}

/// The name of the temporary file beside `target`.
pub fn temp_name(target: &[u8], fallback: &str, mark: &str, pid: u32) -> (r: String)
    ensures
        r@ == temp_text(target@, fallback@, mark@, pid as nat),
{
    let mut s = String::new();
    s.append(".");
    match path::file_name(target) {
        Some(name) => {
            let shown = path::lossy(name.as_slice());
            s.append(shown.as_str());
        },
        None => {
            s.append(fallback);
        },
    }
    s.append(mark);
    text::push_decimal(&mut s, pid as u128);
    assert(s@ =~= temp_text(target@, fallback@, mark@, pid as nat));
    s
}

/// A write whose steps all go well is done after six of them; one that fails before
/// the rename ends there, with the target as it was, and a failed rename too, after
/// the temporary file is removed where that is asked for.
pub proof fn a_write_is_done_or_the_target_stays(outcomes: Seq<bool>, tidy: bool)
    ensures
        outcomes.len() == 6 && (forall|i: int| 0 <= i < 6 ==> outcomes[i]) ==> reached(
            outcomes,
            tidy,
        ) == PrivateWrite::Done,
        forall|k: int|
            0 <= k < 5 && k < outcomes.len() && !(#[trigger] outcomes[k]) ==> reached(
                outcomes,
                tidy,
            ) == PrivateWrite::Failed,
        outcomes.len() == 6 && !outcomes[5] && (forall|i: int| 0 <= i < 5 ==> outcomes[i])
            ==> reached(outcomes, tidy) == (if tidy {
            PrivateWrite::Discard
        } else {
            PrivateWrite::Failed
        }),
        outcomes.len() >= 7 && !outcomes[5] ==> reached(outcomes, tidy) == PrivateWrite::Failed,
    decreases outcomes.len(),
{
    if outcomes.len() > 0 {
        let o = outcomes.drop_last();
        a_write_is_done_or_the_target_stays(o, tidy);
        if o.len() <= 5 {
            good_steps_go_on(o, tidy);
        }
        let last = outcomes.len() - 1;
        assert forall|k: int|
            0 <= k < 5 && k < outcomes.len() && !(#[trigger] outcomes[k]) implies reached(
            outcomes,
            tidy,
        ) == PrivateWrite::Failed by {
            if k < last {
                assert(!o[k]);
            } else if forall|i: int| 0 <= i < o.len() ==> o[i] {
                assert(o.len() == k);
            } else {
                let j = choose|j: int| 0 <= j < o.len() && !o[j];
                assert(!o[j]);
            }
        }
        if outcomes.len() == 6 {
            assert(forall|i: int| 0 <= i < 5 ==> o[i] == outcomes[i]);
        }
        if outcomes.len() >= 7 && !outcomes[5] {
            if outcomes.len() == 7 {
                if forall|i: int| 0 <= i < 5 ==> outcomes[i] {
                    assert(forall|i: int| 0 <= i < 5 ==> o[i] == outcomes[i]);
                } else {
                    let j = choose|j: int| 0 <= j < 5 && !outcomes[j];
                    assert(!o[j]);
                }
            }
            assert(o[5] == outcomes[5]);
        }
    }
}

/// Good steps go on, one by one.
proof fn good_steps_go_on(outcomes: Seq<bool>, tidy: bool)
    requires
        outcomes.len() <= 5,
    ensures
        (forall|i: int| 0 <= i < outcomes.len() ==> outcomes[i]) ==> reached(outcomes, tidy) == (
        if outcomes.len() == 0 {
            PrivateWrite::MakeDir
        } else if outcomes.len() == 1 {
            PrivateWrite::Create
        } else if outcomes.len() == 2 {
            PrivateWrite::Narrow
        } else if outcomes.len() == 3 {
            PrivateWrite::Fill
        } else if outcomes.len() == 4 {
            PrivateWrite::Sync
        } else {
            PrivateWrite::Publish
        }),
    decreases outcomes.len(),
{
    if outcomes.len() > 0 {
        let o = outcomes.drop_last();
        good_steps_go_on(o, tidy);
        if forall|i: int| 0 <= i < outcomes.len() ==> outcomes[i] {
            assert(forall|i: int| 0 <= i < o.len() ==> o[i] == outcomes[i]);
            assert(outcomes[outcomes.len() - 1]);
        }
    }
}

/// Two processes never share a temporary file, and its name starts with a dot and
/// holds the name of the target.
pub proof fn a_temporary_file_is_its_own(
    target: Seq<u8>,
    fallback: Seq<char>,
    mark: Seq<char>,
    pid: nat,
    other: nat,
)
    ensures
        temp_text(target, fallback, mark, pid) == temp_text(target, fallback, mark, other) <==> pid
            == other,
        temp_text(target, fallback, mark, pid).len() > 0,
        temp_text(target, fallback, mark, pid)[0] == '.',
        text::occurs_in(temp_text(target, fallback, mark, pid), mark),
        text::occurs_in(temp_text(target, fallback, mark, pid), text::decimal(pid)),
        path::final_component(target) matches Some(name) ==> text::occurs_in(
            temp_text(target, fallback, mark, pid),
            path::utf8_lossy(name),
        ),
        path::final_component(target) is None ==> text::occurs_in(
            temp_text(target, fallback, mark, pid),
            fallback,
        ),
{
    broadcast use text::parts_stand_in;

    reveal_strlit(".");
    let a = temp_text(target, fallback, mark, pid);
    let b = temp_text(target, fallback, mark, other);
    let n = a.len() - text::decimal(pid).len();
    assert(a.skip(n) =~= text::decimal(pid));
    assert(b.skip(n) =~= text::decimal(other));
    text::a_numeral_reads_back(pid);
    text::a_numeral_reads_back(other);
}

} // verus!
