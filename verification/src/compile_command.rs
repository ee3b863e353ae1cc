//! One concrete compiler invocation: working directory, executable,
//! ordered argument list, and the identity of the source file it
//! compiles. Created per stale file, consumed once for execution and/or
//! compile-database emission.

use vstd::prelude::*;
use crate::config::opt_list;

verus! {

/// A source file as the engine sees it: path and modification time in
/// epoch seconds.
#[derive(Clone, Debug, PartialEq, Eq)]
pub struct SourceFile {
    pub path: String,
    pub modified: u64,
}

impl SourceFile {
    /// An equal, independently owned descriptor.
    pub fn duplicate(&self) -> (r: SourceFile)
        ensures
            r == *self,
    {
        SourceFile { path: self.path.clone(), modified: self.modified }
    }
}

/// One compiler invocation.
pub struct CompileCommand {
    pub directory: String,
    pub command: String,
    pub arguments: Vec<String>,
    pub file: String,
    pub source_file: SourceFile,
}

/// `xs` with `flag` prepended to each element.
pub open spec fn spec_prefixed(flag: Seq<char>, xs: Seq<Seq<char>>) -> Seq<Seq<char>> {
    xs.map_values(|x: Seq<char>| flag + x)
}

/// Append `flag ++ x` to `args` for every `x` in `xs`.
pub fn push_all_prefixed(args: &mut Vec<String>, flag: &str, xs: &Vec<String>)
    ensures
        final(args).deep_view() == old(args).deep_view() + spec_prefixed(flag@, xs.deep_view()),
{
    let ghost base = args.deep_view();
    let mut i: usize = 0;
    while i < xs.len()
        invariant
            i <= xs@.len(),
            args.deep_view() == base + spec_prefixed(flag@, xs.deep_view().take(i as int)),
        decreases xs@.len() - i,
    {
        let ghost pre = args.deep_view();
        let v = crate::paths::str_concat(flag, xs[i].as_str());
        args.push(v);
        proof {
            assert(args.deep_view() =~= pre.push(flag@ + xs.deep_view()[i as int]));
            assert(spec_prefixed(flag@, xs.deep_view().take(i as int + 1)) =~= spec_prefixed(
                flag@,
                xs.deep_view().take(i as int),
            ).push(flag@ + xs.deep_view()[i as int]));
            assert(args.deep_view() =~= base + spec_prefixed(
                flag@,
                xs.deep_view().take(i as int + 1),
            ));
        }
        i += 1;
    }
    proof {
        assert(base + spec_prefixed(flag@, Seq::empty()) =~= base);
        assert(xs.deep_view().take(xs.deep_view().len() as int) =~= xs.deep_view());
    }
}

/// Append every element of `xs` to `args` unchanged.
pub fn push_all(args: &mut Vec<String>, xs: &Vec<String>)
    ensures
        final(args).deep_view() == old(args).deep_view() + xs.deep_view(),
{
    let ghost base = args.deep_view();
    let mut i: usize = 0;
    while i < xs.len()
        invariant
            i <= xs@.len(),
            args.deep_view() == base + xs.deep_view().take(i as int),
        decreases xs@.len() - i,
    {
        let ghost pre = args.deep_view();
        let v = xs[i].clone();
        args.push(v);
        proof {
            assert(args.deep_view() =~= pre.push(xs.deep_view()[i as int]));
            assert(xs.deep_view().take(i as int + 1) =~= xs.deep_view().take(i as int).push(
                xs.deep_view()[i as int],
            ));
            assert(args.deep_view() =~= base + xs.deep_view().take(i as int + 1));
        }
        i += 1;
    }
    proof {
        assert(base + Seq::<Seq<char>>::empty() =~= base);
        assert(xs.deep_view().take(xs.deep_view().len() as int) =~= xs.deep_view());
    }
}

/// Append `flag ++ x` to `args` for every `x` in the optional list.
pub fn push_all_prefixed_opt(args: &mut Vec<String>, flag: &str, xs: &Option<Vec<String>>)
    ensures
        final(args).deep_view() == old(args).deep_view() + spec_prefixed(flag@, opt_list(*xs)),
{
    match xs {
        Option::Some(v) => push_all_prefixed(args, flag, v),
        Option::None => {
            proof {
                assert(args.deep_view() =~= old(args).deep_view() + spec_prefixed(
                    flag@,
                    opt_list(*xs),
                ));
            }
        },
    }
}

/// Append the elements of an optional argument list, if present.
pub fn push_all_opt(args: &mut Vec<String>, xs: &Option<Vec<String>>)
    ensures
        final(args).deep_view() == old(args).deep_view() + opt_list(*xs),
{
    match xs {
        Option::Some(v) => push_all(args, v),
        Option::None => {
            proof {
                assert(args.deep_view() =~= old(args).deep_view() + opt_list(*xs));
            }
        },
    }
}

impl CompileCommand {
    /// A command with no arguments yet.
    pub fn new(directory: String, command: &str, file: &str, source_file: SourceFile) -> (r: Self)
        ensures
            r.directory == directory,
            r.command@ == command@,
            r.arguments.deep_view() == Seq::<Seq<char>>::empty(),
            r.file@ == file@,
            r.source_file == source_file,
    {
        let r = CompileCommand {
            directory,
            command: String::from_str(command),
            arguments: Vec::new(),
            file: String::from_str(file),
            source_file,
        };
        proof {
            assert(r.arguments.deep_view() =~= Seq::<Seq<char>>::empty());
        }
        r
    }

    /// Append one argument.
    pub fn push_arg(&mut self, arg: &str)
        ensures
            final(self).arguments.deep_view() == old(self).arguments.deep_view().push(arg@),
            final(self).directory == old(self).directory,
            final(self).command == old(self).command,
            final(self).file == old(self).file,
            final(self).source_file == old(self).source_file,
    {
        self.arguments.push(String::from_str(arg));
        proof {
            assert(self.arguments.deep_view() =~= old(self).arguments.deep_view().push(arg@));
        }
    }

    /// Append several arguments in order.
    pub fn push_args(&mut self, args: &Vec<String>)
        ensures
            final(self).arguments.deep_view() == old(self).arguments.deep_view()
                + args.deep_view(),
            final(self).directory == old(self).directory,
            final(self).command == old(self).command,
            final(self).file == old(self).file,
            final(self).source_file == old(self).source_file,
    {
        push_all(&mut self.arguments, args);
    }
}

} // verus!
