//! The compile-database emitter: one record per source file across all
//! projects, each record exactly the compile command the build itself
//! would run. Both come from the same generator, so the emitted
//! database can never diverge from what the compiler receives. The
//! surrounding program serializes the records and writes the artifact;
//! no compilation is performed.

use vstd::prelude::*;
use crate::compile_command::{CompileCommand, SourceFile};
use crate::config::Config;
use crate::project::{Project, spec_compile_command};

verus! {

/// How many records the first `upto` projects contribute.
pub open spec fn spec_db_offset(sources: Seq<Vec<SourceFile>>, upto: int) -> int
    decreases upto,
{
    if upto <= 0 {
        0
    } else {
        spec_db_offset(sources, upto - 1) + sources[upto - 1]@.len()
    }
}

proof fn lemma_db_offset_mono(sources: Seq<Vec<SourceFile>>, i: int, j: int)
    requires
        0 <= i <= j,
    ensures
        spec_db_offset(sources, i) <= spec_db_offset(sources, j),
    decreases j - i,
{
    if i < j {
        lemma_db_offset_mono(sources, i, j - 1);
    }
}

/// The whole compile database: project by project, file by file, in
/// order. Record `spec_db_offset(sources@, i) + j` is the compile
/// command for file `j` of project `i`.
pub fn compile_database(
    projects: &Vec<Project>,
    sources: &Vec<Vec<SourceFile>>,
    config: &Config,
    working_dir: &String,
) -> (r: Vec<CompileCommand>)
    requires
        sources@.len() == projects@.len(),
    ensures
        r@.len() == spec_db_offset(sources@, projects@.len() as int),
        forall|i: int, j: int|
            0 <= i < projects@.len() && 0 <= j < sources@[i]@.len() ==> spec_compile_command(
                #[trigger] r@[spec_db_offset(sources@, i) + j],
                working_dir@,
                projects@[i],
                sources@[i]@[j],
                *config,
            ),
{
    let mut out: Vec<CompileCommand> = Vec::new();
    let mut i: usize = 0;
    while i < projects.len()
        invariant
            sources@.len() == projects@.len(),
            i <= projects@.len(),
            out@.len() == spec_db_offset(sources@, i as int),
            forall|i2: int, j: int|
                0 <= i2 < i && 0 <= j < sources@[i2]@.len() ==> spec_compile_command(
                    #[trigger] out@[spec_db_offset(sources@, i2) + j],
                    working_dir@,
                    projects@[i2],
                    sources@[i2]@[j],
                    *config,
                ),
        decreases projects@.len() - i,
    {
        let mut cmds = projects[i].get_compile_commands(&sources[i], config, working_dir);
        let ghost pre = out@;
        let ghost cmds_view = cmds@;
        out.append(&mut cmds);
        proof {
            assert(out@ == pre + cmds_view);
            assert(out@.len() == spec_db_offset(sources@, i as int + 1));
            assert forall|i2: int, j: int|
                0 <= i2 < i as int + 1 && 0 <= j < sources@[i2]@.len() implies spec_compile_command(
                #[trigger] out@[spec_db_offset(sources@, i2) + j],
                working_dir@,
                projects@[i2],
                sources@[i2]@[j],
                *config,
            ) by {
                if i2 < i as int {
                    lemma_db_offset_mono(sources@, 0, i2);
                    lemma_db_offset_mono(sources@, i2 + 1, i as int);
                    assert(spec_db_offset(sources@, i2 + 1) == spec_db_offset(sources@, i2)
                        + sources@[i2]@.len());
                    assert(spec_db_offset(sources@, i2) + j < spec_db_offset(sources@, i2 + 1));
                    assert(out@[spec_db_offset(sources@, i2) + j] == pre[spec_db_offset(
                        sources@,
                        i2,
                    ) + j]);
                } else {
                    lemma_db_offset_mono(sources@, 0, i as int);
                    assert(spec_db_offset(sources@, i2) == pre.len());
                    assert(out@[spec_db_offset(sources@, i2) + j] == cmds_view[j]);
                }
            }
        }
        i += 1;
    }
    out
}

} // verus!
