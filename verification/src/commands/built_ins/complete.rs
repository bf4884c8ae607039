//! `complete`: registers, shows and removes completion programs for commands.
use crate::state::complete_store::{self, CompleteStore, first_record_for, without_command};
use crate::syntax::command_invocation::CommandInvocation;
use crate::text::str_eq;
use vstd::prelude::*;

verus! {

/// What `complete` writes to its output and error stream, and the records it leaves.
pub open spec fn complete_result(
    arguments: Seq<Seq<char>>,
    records: Seq<(Seq<char>, Seq<char>)>,
) -> (Seq<char>, Seq<char>, Seq<(Seq<char>, Seq<char>)>) {
    if arguments.len() == 0 {
        (seq![], "complete: no arguments\n"@, records)
    } else if arguments[0] == "-C"@ {
        if arguments.len() < 3 {
            (seq![], "complete: -C: path and command are required\n"@, records)
        } else {
            (seq![], seq![], records.push((arguments[1], arguments[2])))
        }
    } else if arguments[0] == "-p"@ {
        if arguments.len() < 2 {
            (seq![], "complete: -p: command argument required\n"@, records)
        } else {
            match first_record_for(records, arguments[1], 0) {
                Some(k) => (
                    "complete -C '"@ + records[k].0 + "' "@ + records[k].1 + "\n"@,
                    seq![],
                    records,
                ),
                None => (
                    seq![],
                    "complete: "@ + arguments[1] + ": no completion specification\n"@,
                    records,
                ),
            }
        }
    } else if arguments[0] == "-r"@ {
        if arguments.len() < 2 {
            (seq![], "complete: -r: command argument required\n"@, records)
        } else {
            (seq![], seq![], without_command(records, arguments[1]))
        }
    } else {
        (seq![], "complete: unknown argument: "@ + arguments[0] + "\n"@, records)
    }
}

/// Handles `complete -C PATH COMMAND`, `complete -p COMMAND` and `complete -r COMMAND`.
#[verifier::loop_isolation(false)]
pub fn complete(
    command: &CommandInvocation,
    store: &mut CompleteStore,
    writer_out: &mut String,
    writer_err: &mut String,
)
    ensures
        final(writer_out)@ == old(writer_out)@ + complete_result(command@.arguments, old(store)@).0,
        final(writer_err)@ == old(writer_err)@ + complete_result(command@.arguments, old(store)@).1,
        final(store)@ == complete_result(command@.arguments, old(store)@).2,
{
    let arguments = &command.arguments;
    if arguments.len() == 0 {
        writer_err.append("complete: no arguments\n");
        return ;
    }
    if str_eq(arguments[0].as_str(), "-C") {
        if arguments.len() < 3 {
            writer_err.append("complete: -C: path and command are required\n");
            return ;
        }
        complete_store::push(store, arguments[1].clone(), arguments[2].clone());
    } else if str_eq(arguments[0].as_str(), "-p") {
        if arguments.len() < 2 {
            writer_err.append("complete: -p: command argument required\n");
            return ;
        }
        let completion_command = &arguments[1];
        let records = complete_store::get_all(store);
        let ghost all = store@;
        let mut i: usize = 0;
        while i < records.len()
            invariant
                i <= records@.len(),
                complete_store::records_view(records@) == all,
                first_record_for(all, completion_command@, i as int) == first_record_for(
                    all,
                    completion_command@,
                    0,
                ),
                writer_out@ == old(writer_out)@,
                writer_err@ == old(writer_err)@,
            decreases records@.len() - i,
        {
            if records[i].command == *completion_command {
                proof {
                    assert(all[i as int] == records@[i as int]@);
                }
                writer_out.append("complete -C '");
                writer_out.append(records[i].path.as_str());
                writer_out.append("' ");
                writer_out.append(records[i].command.as_str());
                writer_out.append("\n");
                return ;
            }
            proof {
                assert(all[i as int] == records@[i as int]@);
            }
            i = i + 1;
        }
        writer_err.append("complete: ");
        writer_err.append(completion_command.as_str());
        writer_err.append(": no completion specification\n");
    } else if str_eq(arguments[0].as_str(), "-r") {
        if arguments.len() < 2 {
            writer_err.append("complete: -r: command argument required\n");
            return ;
        }
        complete_store::remove(store, arguments[1].clone());
    } else {
        writer_err.append("complete: unknown argument: ");
        writer_err.append(arguments[0].as_str());
        writer_err.append("\n");
    }
}

proof fn lemma_first_record_after_push(
    records: Seq<(Seq<char>, Seq<char>)>,
    record: (Seq<char>, Seq<char>),
    from: int,
)
    requires
        0 <= from <= records.len(),
        first_record_for(records, record.1, from) is None,
    ensures
        first_record_for(records.push(record), record.1, from) == Some(records.len() as int),
    decreases records.len() - from,
{
    if from < records.len() {
        assert(records.push(record)[from] == records[from]);
        lemma_first_record_after_push(records, record, from + 1);
    }
}

/// Law: once `complete -C PATH COMMAND` has registered a program for a command that had
/// none, `complete -p COMMAND` prints the registration back as `complete -C 'PATH'
/// COMMAND`; after `complete -r COMMAND`, `complete -p COMMAND` finds none.
pub proof fn law_registration_is_printed_until_removed(
    records: Seq<(Seq<char>, Seq<char>)>,
    path: Seq<char>,
    command: Seq<char>,
)
    requires
        first_record_for(records, command, 0) is None,
    ensures
        ({
            let registered = complete_result(seq!["-C"@, path, command], records).2;
            &&& complete_result(seq!["-p"@, command], registered).0 == "complete -C '"@ + path
                + "' "@ + command + "\n"@
            &&& complete_result(seq!["-p"@, command], registered).1 == Seq::<char>::empty()
            &&& complete_result(
                seq!["-p"@, command],
                complete_result(seq!["-r"@, command], registered).2,
            ).1 == "complete: "@ + command + ": no completion specification\n"@
        }),
{
    reveal_strlit("-C");
    reveal_strlit("-p");
    reveal_strlit("-r");
    assert("-p"@ != "-C"@) by {
        assert("-p"@[1] != "-C"@[1]);
    }
    assert("-r"@ != "-C"@) by {
        assert("-r"@[1] != "-C"@[1]);
    }
    assert("-r"@ != "-p"@) by {
        assert("-r"@[1] != "-p"@[1]);
    }
    let registered = records.push((path, command));
    assert(complete_result(seq!["-C"@, path, command], records).2 == registered);
    lemma_first_record_after_push(records, (path, command), 0);
    let removed = without_command(registered, command);
    assert(complete_result(seq!["-r"@, command], registered).2 == removed);
    complete_store::law_remove_drops_exactly_the_command(registered, command);
    lemma_no_record_left(removed, command, 0);
}

proof fn lemma_no_record_left(records: Seq<(Seq<char>, Seq<char>)>, command: Seq<char>, from: int)
    requires
        0 <= from,
        forall|k: int| 0 <= k < records.len() ==> (#[trigger] records[k]).1 != command,
    ensures
        first_record_for(records, command, from) is None,
    decreases records.len() - from,
{
    if from < records.len() {
        lemma_no_record_left(records, command, from + 1);
    }
}

} // verus!
