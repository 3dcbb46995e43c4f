//! A Go project as the tools see it: which source files count, the parsed
//! files with their paths, and the records the analysis steps hand on.
use vstd::prelude::*;
use std::path::PathBuf;
use crate::ast::{File, POS_LIMIT};
use crate::errors::ErrorList;
use crate::parser::parse_file;
use crate::position::FileSet;
use crate::scope::AstObjects;
use crate::span::file_ok;
use crate::branch_cov::helpers::{is_test_file, should_exclude_file, trim_stars};
use crate::strs::{seq_ends_with, seq_contains};

verus! {

/// `std::path::PathBuf`, carried through as it is.
#[verifier::external_type_specification]
#[verifier::external_body]
pub struct ExPathBuf(PathBuf);

/// A parsed source file and where it came from.
#[derive(Debug)]
pub struct ParsedFile {
    pub path: PathBuf,
    pub ast: File,
}

/// Which files of a project are parsed.
#[derive(Debug, Clone)]
pub struct ParseOptions {
    pub exclude_patterns: Vec<String>,
    pub include_test_files: bool,
}

impl Default for ParseOptions {
    /// No exclusion pattern, and test files left out.
    fn default() -> (r: ParseOptions)
        ensures r.exclude_patterns@.len() == 0, !r.include_test_files,
    {
        ParseOptions { exclude_patterns: Vec::new(), include_test_files: false }
    }
}

/// Whether a Go file is parsed: a test file (its name ends with
/// `_test.go`) only if test files are included, another file only if no
/// exclusion pattern (without its `*`s) occurs in its path.
pub open spec fn file_kept(file_name: Seq<char>, path: Seq<char>, include_tests: bool, patterns: Seq<String>) -> bool {
    if seq_ends_with(file_name, "_test.go"@) {
        include_tests
    } else {
        !exists|i: int| 0 <= i < patterns.len() && #[trigger] seq_contains(path, trim_stars(patterns[i]@))
    }
}

/// Whether the Go file with this name and path is parsed (see `file_kept`).
pub fn keep_file(file_name: &str, path: &str, options: &ParseOptions) -> (r: bool)
    ensures r == file_kept(file_name@, path@, options.include_test_files, options.exclude_patterns@),
{
    let is_test = is_test_file(file_name);
    if !options.include_test_files && is_test {
        return false;
    }
    if !is_test && should_exclude_file(path, options.exclude_patterns.as_slice()) {
        return false;
    }
    true
}

/// The parsed project: its file set, arena and files.
#[derive(Debug)]
pub struct ParsedProjectResult {
    pub file_set: FileSet,
    pub ast_objects: AstObjects,
    pub files: Vec<ParsedFile>,
}

/// The positions the sources take in one file set: each source's length
/// and one more.
pub open spec fn sources_size(s: Seq<(PathBuf, String, String)>) -> nat
    decreases s.len(),
{
    if s.len() == 0 { 0 } else { sources_size(s.drop_last()) + s.last().2@.len() + 1 }
}

proof fn lemma_sources_size_prefix(s: Seq<(PathBuf, String, String)>, i: int)
    requires 0 <= i <= s.len(),
    ensures sources_size(s.subrange(0, i)) <= sources_size(s),
    decreases s.len() - i,
{
    if i < s.len() {
        lemma_sources_size_prefix(s, i + 1);
        assert(s.subrange(0, i + 1).drop_last() =~= s.subrange(0, i));
    } else {
        assert(s.subrange(0, i) =~= s);
    }
}

/// `idx` picks, in increasing order, the source each file was parsed from,
/// whose path the file carries.
pub open spec fn from_sources(files: Seq<ParsedFile>, sources: Seq<(PathBuf, String, String)>, idx: Seq<int>) -> bool {
    &&& idx.len() == files.len()
    &&& forall|t: int| 0 <= t < idx.len() ==> 0 <= #[trigger] idx[t] < sources.len() && files[t].path == sources[idx[t]].0
    &&& forall|t1: int, t2: int| 0 <= t1 < t2 < idx.len() ==> #[trigger] idx[t1] < #[trigger] idx[t2]
}

/// Parses the given sources (path, name, text) in order into one file set;
/// a source with a syntax error is left out. Gives the file set, the arena,
/// the parsed files and the errors found. Each parsed file comes from its
/// own source, with that source's path, in the order of the sources. When
/// all sources fit in the positions, the file set holds one file per source,
/// with its name and length, in order.
pub fn parse_sources(sources: Vec<(PathBuf, String, String)>) -> (r: (ParsedProjectResult, ErrorList))
    ensures
        r.0.file_set.wf(),
        r.0.files@.len() <= sources@.len(),
        forall|i: int| 0 <= i < r.0.files@.len() ==> file_ok(#[trigger] r.0.files@[i].ast),
        r.0.files@.len() + r.1.spec_errors().len() >= sources@.len(),
        r.1.spec_errors().len() == 0 ==> r.0.files@.len() == sources@.len()
            && forall|k: int| 0 <= k < sources@.len() ==> (#[trigger] r.0.files@[k]).path == sources@[k].0,
        exists|idx: Seq<int>| #[trigger] from_sources(r.0.files@, sources@, idx),
        sources_size(sources@) <= POS_LIMIT ==> {
            &&& r.0.file_set.spec_files().len() == sources@.len()
            &&& forall|k: int| 0 <= k < sources@.len() ==> (#[trigger] r.0.file_set.spec_files()[k]).spec_name() == sources@[k].1@
                && r.0.file_set.spec_files()[k].spec_size() == sources@[k].2@.len()
        },
{
    let ghost all = sources@;
    let mut fset = FileSet::new();
    let mut objs = AstObjects::new();
    let mut errs = ErrorList::new();
    let mut files: Vec<ParsedFile> = Vec::new();
    let mut rest = sources;
    let n = rest.len();
    let mut taken: usize = 0;
    let ghost mut idx: Seq<int> = Seq::empty();
    while rest.len() > 0
        invariant
            fset.wf(),
            from_sources(files@, all, idx),
            forall|t: int| 0 <= t < idx.len() ==> #[trigger] idx[t] < taken,
            taken + rest@.len() == n,
            n == all.len(),
            rest@ == all.subrange(taken as int, n as int),
            files@.len() <= taken,
            files@.len() + errs.spec_errors().len() >= taken,
            errs.spec_errors().len() == 0 ==> files@.len() == taken
                && forall|k: int| 0 <= k < taken ==> (#[trigger] files@[k]).path == all[k].0,
            forall|i: int| 0 <= i < files@.len() ==> file_ok(#[trigger] files@[i].ast),
            sources_size(all) <= POS_LIMIT ==> {
                &&& fset.spec_base() == sources_size(all.subrange(0, taken as int))
                &&& fset.spec_files().len() == taken
                &&& forall|k: int| 0 <= k < taken ==> (#[trigger] fset.spec_files()[k]).spec_name() == all[k].1@
                    && fset.spec_files()[k].spec_size() == all[k].2@.len()
            },
        decreases rest@.len(),
    {
        let ghost rest0 = rest@;
        let ghost fs0 = fset;
        let (path, name, text) = rest.remove(0);
        proof {
            assert(rest0[0] == all[taken as int]);
            assert(rest@ =~= all.subrange(taken + 1, n as int));
            assert(all.subrange(0, taken + 1).drop_last() =~= all.subrange(0, taken as int));
            lemma_sources_size_prefix(all, taken + 1);
        }
        let ghost e0 = errs.spec_errors().len();
        assert(path == all[taken as int].0);
        taken += 1;
        match parse_file(&mut objs, &mut fset, &mut errs, name.as_str(), text.as_str(), false) {
            Some(ast) => {
                let ghost f0 = files@;
                files.push(ParsedFile { path, ast });
                assert forall|i: int| 0 <= i < files@.len() implies file_ok(#[trigger] files@[i].ast) by {
                    if i < f0.len() { assert(files@[i] == f0[i]); }
                };
                assert forall|k: int| 0 <= k < taken && errs.spec_errors().len() == 0 implies (#[trigger] files@[k]).path == all[k].0 by {
                    if k < f0.len() { assert(files@[k] == f0[k]); }
                };
                proof {
                    let i1 = idx.push(taken - 1);
                    assert forall|t: int| 0 <= t < i1.len() implies 0 <= #[trigger] i1[t] < all.len()
                        && files@[t].path == all[i1[t]].0 by {
                        if t < idx.len() { assert(files@[t] == f0[t]); }
                    };
                    assert(from_sources(files@, all, i1));
                    idx = i1;
                }
            },
            None => {},
        }
        proof {
            if sources_size(all) <= POS_LIMIT {
                assert forall|k: int| 0 <= k < taken implies (#[trigger] fset.spec_files()[k]).spec_name() == all[k].1@
                    && fset.spec_files()[k].spec_size() == all[k].2@.len() by {
                    if k < taken - 1 {
                        assert(fset.spec_files()[k] == fs0.spec_files()[k]);
                    }
                };
            }
        }
    }
    proof {
        assert(all.subrange(0, n as int) =~= all);
        assert(from_sources(files@, sources@, idx));
    }
    (ParsedProjectResult { file_set: fset, ast_objects: objs, files }, errs)
}

/// A parsed single file and its arena.
#[derive(Debug)]
pub struct ParseFileResult {
    pub file: File,
    pub ast_objects: AstObjects,
}

/// What parsing a single file depends on: nothing.
pub struct ParseFileDep {}

/// Parses one source (with tracing on, as the file plugin does); None on a
/// syntax error.
pub fn parse_file_result(name: &str, source: &str) -> (r: Option<ParseFileResult>)
    ensures
        r matches Some(p) ==> file_ok(p.file),
        source@.len() > POS_LIMIT ==> r is None,
{
    let mut fset = FileSet::new();
    let mut objs = AstObjects::new();
    let mut errs = ErrorList::new();
    match parse_file(&mut objs, &mut fset, &mut errs, name, source, true) {
        Some(file) => Some(ParseFileResult { file, ast_objects: objs }),
        None => None,
    }
}

/// Where a DOT export went and whether writing it succeeded.
#[derive(Debug, Clone)]
pub struct ExportResult {
    pub output_path: String,
    pub success: bool,
}

/// A function of a project: its file and its name.
#[derive(Debug, PartialEq, Eq, Hash)]
pub struct CfgKey {
    pub filename: String,
    pub funcname: String,
}

/// The parameters of building a project's graphs: none.
pub struct CreateProjectCfgsParams {}

/// The parameters of counting a project's functions: none.
pub struct CountFuncsParams {}

/// The result type of plugin functions.
pub struct PluginFunctionResult;

/// The type of user parameters handed to plugin functions.
pub struct UserParam;

} // verus!

verus! {

/// How many function declarations the declarations hold.
pub open spec fn func_count(decls: Seq<crate::ast::Decl>) -> nat
    decreases decls.len(),
{
    if decls.len() == 0 {
        0
    } else {
        func_count(decls.drop_last()) + if decls.last() is Func { 1nat } else { 0nat }
    }
}

/// How many function declarations the files hold, file by file.
pub open spec fn files_func_count(files: Seq<ParsedFile>) -> nat
    decreases files.len(),
{
    if files.len() == 0 { 0 } else { files_func_count(files.drop_last()) + func_count(files.last().ast.decls@) }
}

proof fn lemma_func_count_le(decls: Seq<crate::ast::Decl>)
    ensures func_count(decls) <= decls.len(),
    decreases decls.len(),
{
    if decls.len() > 0 {
        lemma_func_count_le(decls.drop_last());
    }
}

/// The number of function declarations in the parsed files.
pub fn count_funcs(files: &Vec<ParsedFile>) -> (r: usize)
    requires files_func_count(files@) <= usize::MAX,
    ensures r == files_func_count(files@),
{
    let mut n: usize = 0;
    let mut i: usize = 0;
    while i < files.len()
        invariant
            i <= files@.len(),
            files_func_count(files@) <= usize::MAX,
            n == files_func_count(files@.subrange(0, i as int)),
        decreases files@.len() - i,
    {
        let decls = &files[i].ast.decls;
        proof {
            assert(files@.subrange(0, i as int + 1).drop_last() =~= files@.subrange(0, i as int));
            lemma_files_count_prefix(files@, i as int + 1);
        }
        let mut j: usize = 0;
        let ghost n0 = n;
        while j < decls.len()
            invariant
                j <= decls@.len(),
                n0 + func_count(decls@) <= usize::MAX,
                n == n0 + func_count(decls@.subrange(0, j as int)),
            decreases decls@.len() - j,
        {
            proof {
                assert(decls@.subrange(0, j as int + 1).drop_last() =~= decls@.subrange(0, j as int));
                lemma_func_count_prefix(decls@, j as int + 1);
            }
            match &decls[j] {
                crate::ast::Decl::Func(_) => { n = n + 1; },
                _ => {},
            }
            j += 1;
        }
        proof { assert(decls@.subrange(0, j as int) =~= decls@); }
        i += 1;
    }
    proof { assert(files@.subrange(0, i as int) =~= files@); }
    n
}

proof fn lemma_func_count_prefix(d: Seq<crate::ast::Decl>, i: int)
    requires 0 <= i <= d.len(),
    ensures func_count(d.subrange(0, i)) <= func_count(d),
    decreases d.len() - i,
{
    if i < d.len() {
        lemma_func_count_prefix(d, i + 1);
        assert(d.subrange(0, i + 1).drop_last() =~= d.subrange(0, i));
    } else {
        assert(d.subrange(0, i) =~= d);
    }
}

proof fn lemma_files_count_prefix(f: Seq<ParsedFile>, i: int)
    requires 0 <= i <= f.len(),
    ensures files_func_count(f.subrange(0, i)) <= files_func_count(f),
    decreases f.len() - i,
{
    if i < f.len() {
        lemma_files_count_prefix(f, i + 1);
        assert(f.subrange(0, i + 1).drop_last() =~= f.subrange(0, i));
    } else {
        assert(f.subrange(0, i) =~= f);
    }
}

} // verus!
