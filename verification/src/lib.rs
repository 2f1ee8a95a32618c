//! Build-time template resolver.
//!
//! An entry document written in an HTML-like language may use self-closing
//! component tags (`<Name attr="v" />`) that stand for other files, argument
//! placeholders (`$name`), and inline component definitions
//! (`{{Name ...\n body }}`). Resolution expands every such construct and
//! yields a single flat text document.
//!
//! The crate is a library of plain values: the caller hands in the entry
//! text and a table of the files that the input directory holds, and gets
//! the resolved bytes back. All file and console traffic stays outside.

use vstd::prelude::*;

pub mod arena;
pub mod filepath;
pub mod files;
pub mod grammar;
pub mod laws;
pub mod resolver;
pub mod sink;
pub mod strview;
pub mod table;
pub mod token;

use crate::filepath::{entry_path_of, Filepath};
use crate::files::FileTable;
use crate::resolver::{reads_model, spec_resolve_document, Resolution};
use crate::strview::{clone_bytes, lemma_store_leq_view, Store};
use crate::table::assoc;

verus! {

/// Everything that can go wrong while resolving a document. Every error is
/// fatal to the run: resolution unwinds completely and reports it.
#[derive(Clone, Copy, Debug, PartialEq, Eq, Structural)]
pub enum Error {
    /// A malformed component tag, attribute or inline block.
    SyntaxError,
    /// A component tag named a file that the input directory does not hold.
    ComponentNotFound,
    /// An argument placeholder had no binding at its use site.
    ArgumentNotBound,
    /// An inline definition reused a name that the cache already holds.
    DuplicateComponentDefinition,
    /// A fixed-capacity arena could not take another allocation.
    CapacityExceeded,
    /// Component expansion nested deeper than the configured bound.
    RecursionLimitExceeded,
    /// The entry document itself could not be read.
    IOError,
}

/// The input directory used when no argument names one.
pub open spec fn default_input_dir() -> Seq<u8> {
    seq![115u8, 114u8, 99u8]
}

/// The entry file name used when no argument names one: `index.html`.
pub open spec fn default_input_file_name() -> Seq<u8> {
    seq![105u8, 110u8, 100u8, 101u8, 120u8, 46u8, 104u8, 116u8, 109u8, 108u8]
}

/// The output directory used when no argument names one.
pub open spec fn default_output_dir() -> Seq<u8> {
    seq![98u8, 117u8, 105u8, 108u8, 100u8]
}

/// What one invocation is asked to do: where the sources lie, which file
/// is the entry document, and where the result belongs. The paths are
/// byte strings, exactly as the platform hands them over.
pub struct RunArguments {
    pub input_dir: Vec<u8>,
    pub input_file_name: Vec<u8>,
    pub output_dir: Vec<u8>,
}

impl Default for RunArguments {
    /// `src`, `index.html`, `build`.
    fn default() -> (a: RunArguments)
        ensures
            a.input_dir@ == default_input_dir(),
            a.input_file_name@ == default_input_file_name(),
            a.output_dir@ == default_output_dir(),
    {
        let mut dir: Vec<u8> = Vec::new();
        dir.push(115);
        dir.push(114);
        dir.push(99);
        let mut file: Vec<u8> = Vec::new();
        file.push(105);
        file.push(110);
        file.push(100);
        file.push(101);
        file.push(120);
        file.push(46);
        file.push(104);
        file.push(116);
        file.push(109);
        file.push(108);
        let mut out: Vec<u8> = Vec::new();
        out.push(98);
        out.push(117);
        out.push(105);
        out.push(108);
        out.push(100);
        proof {
            assert(dir@ =~= default_input_dir());
            assert(file@ =~= default_input_file_name());
            assert(out@ =~= default_output_dir());
        }
        RunArguments { input_dir: dir, input_file_name: file, output_dir: out }
    }
}

/// Read the run's arguments out of the process argument list: up to
/// three positional arguments — input directory, entry file name, output
/// directory — each falling back to its default when absent. Anything
/// further is ignored.
pub fn parse_arguments(argv: &Vec<Vec<u8>>) -> (r: RunArguments)
    ensures
        r.input_dir@ == if argv@.len() > 1 {
            argv@[1]@
        } else {
            default_input_dir()
        },
        r.input_file_name@ == if argv@.len() > 2 {
            argv@[2]@
        } else {
            default_input_file_name()
        },
        r.output_dir@ == if argv@.len() > 3 {
            argv@[3]@
        } else {
            default_output_dir()
        },
{
    let mut result = RunArguments::default();
    if argv.len() > 1 {
        result.input_dir = clone_bytes(&argv[1]);
    }
    if argv.len() > 2 {
        result.input_file_name = clone_bytes(&argv[2]);
    }
    if argv.len() > 3 {
        result.output_dir = clone_bytes(&argv[3]);
    }
    result
}

/// One whole run: compose the entry document's path, read it from the
/// file table, and resolve it from a fresh state. A path too long for
/// the path buffer is `CapacityExceeded`; an entry document the table
/// does not hold is `IOError`; everything else is resolution proper.
pub open spec fn spec_run(
    files: Seq<(Seq<u8>, Seq<u8>)>,
    dir: Seq<u8>,
    file_name: Seq<u8>,
    out_cap: nat,
    fp_cap: nat,
    depth: nat,
) -> Result<(Seq<u8>, Seq<Seq<u8>>), Error> {
    let path = entry_path_of(dir, file_name);
    if path.len() > fp_cap {
        Err(Error::CapacityExceeded)
    } else {
        match assoc(files, path) {
            Option::None => Err(Error::IOError),
            Option::Some(content) => spec_resolve_document(
                files,
                dir,
                content,
                out_cap,
                fp_cap,
                depth,
            ),
        }
    }
}

/// Run the resolver over the entry document that `args` names, against
/// the files of the input directory. Returns the resolved bytes and the
/// read log; writing them to `args.output_dir` is the caller's business,
/// once, after success — so a failed run leaves no partial file behind.
pub fn run(
    args: &RunArguments,
    files: &FileTable,
    out_cap: usize,
    path_cap: usize,
    max_depth: usize,
) -> (r: Result<Resolution, Error>)
    ensures
        match r {
            Ok(res) => spec_run(
                files.model(),
                args.input_dir@,
                args.input_file_name@,
                out_cap as nat,
                path_cap as nat,
                max_depth as nat,
            ) == Ok::<_, Error>((res.output@, reads_model(res.reads@))),
            Err(e) => spec_run(
                files.model(),
                args.input_dir@,
                args.input_file_name@,
                out_cap as nat,
                path_cap as nat,
                max_depth as nat,
            ) == Err::<(Seq<u8>, Seq<Seq<u8>>), _>(e),
        },
{
    let mut store = Store::new();
    let dir = store.push_text(clone_bytes(&args.input_dir));
    let ghost ta = store.texts();
    let file = store.push_text(clone_bytes(&args.input_file_name));
    proof {
        lemma_store_leq_view(ta, store.texts(), dir);
    }
    let mut fp = Filepath::new(path_cap);
    let path = match fp.build_entry_path(&store, dir, file) {
        Err(e) => {
            return Err(e);
        },
        Ok(p) => p,
    };
    match files.read(&path) {
        None => Err(Error::IOError),
        Some(content) => resolver::resolve_document(
            files,
            &args.input_dir,
            &content,
            out_cap,
            path_cap,
            max_depth,
        ),
    }
}

} // verus!
