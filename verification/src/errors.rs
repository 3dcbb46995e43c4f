//! Error lists: errors found in source files, with their positions.
use vstd::prelude::*;
use crate::position::{File, FilePos, Pos, resolves};
use crate::strs::{string_push_str, string_push, push_decimal};

verus! {

/// An error at a source position. `soft` errors do not stop analysis;
/// `by_parser` tells parser errors from later ones. Errors sort by `order`.
#[derive(Clone, Debug)]
pub struct Error {
    pub pos: FilePos,
    pub msg: String,
    pub soft: bool,
    pub by_parser: bool,
    pub order: usize,
}

impl Error {
    pub closed spec fn spec_order(&self) -> usize {
        self.order
    }

    /// An equal copy of the error.
    pub fn duplicate(&self) -> (r: Error)
        ensures r == *self,
    {
        Error {
            pos: self.pos.duplicate(),
            msg: self.msg.clone(),
            soft: self.soft,
            by_parser: self.by_parser,
            order: self.order,
        }
    }

    /// `[Parser] file:line:col  message` (or `[TC]` for errors not reported
    /// by the parser), then a newline.
    pub fn display_string(&self) -> (r: String)
        ensures
            r@ == (if self.by_parser { "[Parser] "@ } else { "[TC] "@ })
                + crate::position::file_pos_text(self.pos.filename@, self.pos.line, self.pos.column)
                + "  "@ + self.msg@ + "\n"@,
    {
        let mut s = if self.by_parser { String::from_str("[Parser] ") } else { String::from_str("[TC] ") };
        let p = self.pos.display_string();
        string_push_str(&mut s, p.as_str());
        string_push_str(&mut s, "  ");
        string_push_str(&mut s, self.msg.as_str());
        string_push_str(&mut s, "\n");
        s
    }
}

/// Whether a message is a continuation line (starts with a tab).
pub open spec fn is_continuation(msg: Seq<char>) -> bool {
    msg.len() > 0 && msg[0] == '\t'
}

/// The display order of the last error that is not a continuation line.
pub open spec fn last_lead_order(errs: Seq<Error>) -> Option<usize>
    decreases errs.len(),
{
    if errs.len() == 0 {
        None
    } else if !is_continuation(errs.last().msg@) {
        Some(errs.last().pos.offset)
    } else {
        last_lead_order(errs.drop_last())
    }
}

/// Where `e` goes among the first `n` errors of `s`: just after the last of
/// them whose order is not greater than its own (0 if there is none).
pub open spec fn place_of(s: Seq<Error>, e: Error, n: int) -> int
    decreases n,
{
    if n <= 0 { 0 } else if s[n - 1].spec_order() > e.spec_order() { place_of(s, e, n - 1) } else { n }
}

/// The errors sorted by display order, errors of equal order kept in the
/// order they come: each error in turn goes after every earlier one whose
/// order is not greater.
pub open spec fn stable_sorted(s: Seq<Error>) -> Seq<Error>
    decreases s.len(),
{
    if s.len() == 0 {
        s
    } else {
        let t = stable_sorted(s.drop_last());
        t.insert(place_of(t, s.last(), t.len() as int), s.last())
    }
}

/// A list of errors in the order they were added (until sorted).
#[derive(Clone, Debug)]
pub struct ErrorList {
    errors: Vec<Error>,
}

impl ErrorList {
    pub closed spec fn spec_errors(&self) -> Seq<Error> {
        self.errors@
    }

    pub fn new() -> (r: ErrorList)
        ensures r.spec_errors().len() == 0,
    {
        ErrorList { errors: Vec::new() }
    }

    /// Adds an error at `p` (the null position if none). A continuation line
    /// (a message starting with a tab) sorts with the last error before it
    /// that is not one; there must be such an error.
    pub fn add(&mut self, p: Option<FilePos>, msg: String, soft: bool, by_parser: bool)
        requires is_continuation(msg@) ==> last_lead_order(old(self).spec_errors()) is Some,
        ensures
            final(self).spec_errors().len() == old(self).spec_errors().len() + 1,
            final(self).spec_errors().drop_last() == old(self).spec_errors(),
            ({
                let e = final(self).spec_errors().last();
                &&& e.msg == msg
                &&& e.soft == soft
                &&& e.by_parser == by_parser
                &&& match p {
                    Some(fp) => e.pos == fp,
                    None => e.pos.filename@ == "[null_file]"@ && e.pos.line == 0 && e.pos.offset == 0 && e.pos.column == 0,
                }
                &&& e.spec_order() == if is_continuation(msg@) {
                        last_lead_order(old(self).spec_errors()).unwrap()
                    } else {
                        e.pos.offset
                    }
            }),
    {
        let fp = match p {
            Some(fp) => fp,
            None => FilePos::null(),
        };
        let tabbed = msg.as_str().unicode_len() > 0 && msg.as_str().get_char(0) == '\t';
        let order = if tabbed {
            match last_lead(&self.errors) {
                Some(o) => o,
                None => { proof { assert(false); } 0 },
            }
        } else {
            fp.offset
        };
        let ghost before = self.errors@;
        self.errors.push(Error { pos: fp, msg, soft, by_parser, order });
        assert(self.errors@.drop_last() =~= before);
    }

    pub fn is_empty(&self) -> (r: bool)
        ensures r == (self.spec_errors().len() == 0),
    {
        self.len() == 0
    }

    pub fn len(&self) -> (r: usize)
        ensures r == self.spec_errors().len(),
    {
        self.errors.len()
    }

    /// The errors, in their current order.
    pub fn borrow(&self) -> (r: &Vec<Error>)
        ensures r@ == self.spec_errors(),
    {
        &self.errors
    }

    /// Sorts the errors by their display order, keeping errors of equal
    /// order in the order they were added.
    #[verifier::spinoff_prover]
    #[verifier::rlimit(60)]
    pub fn sort(&mut self)
        ensures
            final(self).spec_errors().len() == old(self).spec_errors().len(),
            final(self).spec_errors().to_multiset() == old(self).spec_errors().to_multiset(),
            forall|i: int, j: int| 0 <= i < j < final(self).spec_errors().len()
                ==> #[trigger] final(self).spec_errors()[i].spec_order() <= #[trigger] final(self).spec_errors()[j].spec_order(),
            final(self).spec_errors() == stable_sorted(old(self).spec_errors()),
    {
        let mut out: Vec<Error> = Vec::new();
        let n = self.errors.len();
        let mut k: usize = 0;
        assert(self.errors@.subrange(0, 0).to_multiset() =~= out@.to_multiset()) by {
            assert(self.errors@.subrange(0, 0) =~= out@);
        };
        while k < n
            invariant
                n == self.errors@.len(),
                k <= n,
                out@.len() == k,
                out@ == stable_sorted(self.errors@.subrange(0, k as int)),
                out@.to_multiset() == self.errors@.subrange(0, k as int).to_multiset(),
                forall|i: int, j: int| 0 <= i < j < out@.len() ==> #[trigger] out@[i].spec_order() <= #[trigger] out@[j].spec_order(),
            decreases n - k,
        {
            let e = self.errors[k].duplicate();
            let ghost ev = self.errors@[k as int];
            let mut pos = out.len();
            while pos > 0 && out[pos - 1].order > e.order
                invariant
                    pos <= out@.len(),
                    forall|t: int| pos <= t < out@.len() ==> #[trigger] out@[t].spec_order() > e.spec_order(),
                    place_of(out@, e, out@.len() as int) == place_of(out@, e, pos as int),
                decreases pos,
            {
                pos -= 1;
            }
            let ghost prev = out@;
            proof {
                assert(place_of(prev, e, pos as int) == pos as int);
                assert(self.errors@.subrange(0, k + 1).drop_last() =~= self.errors@.subrange(0, k as int));
                assert(self.errors@.subrange(0, k + 1).last() == ev);
            }
            out.insert(pos, e);
            proof {
                let a = prev.subrange(0, pos as int);
                let b = prev.subrange(pos as int, prev.len() as int);
                assert(prev =~= a + b);
                assert(out@ =~= a.push(ev) + b);
                vstd::seq_lib::lemma_multiset_commutative(a.push(ev), b);
                vstd::seq_lib::lemma_multiset_commutative(a, b);
                a.to_multiset_ensures();
                let s = self.errors@.subrange(0, k as int);
                s.to_multiset_ensures();
                assert(self.errors@.subrange(0, k + 1) =~= s.push(ev));
                assert(a.to_multiset().insert(ev).add(b.to_multiset()) =~= a.to_multiset().add(b.to_multiset()).insert(ev)) by {
                    broadcast use vstd::multiset::group_multiset_axioms;
                };
                assert forall|i: int, j: int| 0 <= i < j < out@.len() implies #[trigger] out@[i].spec_order() <= #[trigger] out@[j].spec_order() by {
                    if j < pos {
                        assert(out@[i] == prev[i] && out@[j] == prev[j]);
                    } else if j == pos {
                        assert(out@[i] == prev[i]);
                        assert(prev[i].spec_order() <= prev[pos - 1].spec_order());
                    } else if i == pos {
                        assert(out@[j] == prev[j - 1]);
                    } else if i < pos {
                        assert(out@[i] == prev[i] && out@[j] == prev[j - 1]);
                    } else {
                        assert(out@[i] == prev[i - 1] && out@[j] == prev[j - 1]);
                    }
                };
            }
            k += 1;
        }
        assert(self.errors@.subrange(0, n as int) =~= self.errors@);
        self.errors = out;
    }
}

/// The display order of the last error that is not a continuation line.
fn last_lead(errors: &Vec<Error>) -> (r: Option<usize>)
    ensures r == last_lead_order(errors@),
{
    let mut i = errors.len();
    assert(errors@.subrange(0, i as int) =~= errors@);
    while i > 0
        invariant
            i <= errors@.len(),
            last_lead_order(errors@) == last_lead_order(errors@.subrange(0, i as int)),
        decreases i,
    {
        let ghost pre = errors@.subrange(0, i as int);
        assert(pre.drop_last() =~= errors@.subrange(0, i - 1));
        let e = &errors[i - 1];
        let cont = e.msg.as_str().unicode_len() > 0 && e.msg.as_str().get_char(0) == '\t';
        if !cont {
            return Some(e.pos.offset);
        }
        i -= 1;
    }
    assert(errors@.subrange(0, 0) =~= Seq::<Error>::empty());
    None
}

/// Errors reported against positions of one file.
pub struct FilePosErrors<'a> {
    file: &'a File,
    elist: &'a mut ErrorList,
}

impl<'a> FilePosErrors<'a> {
    pub closed spec fn spec_file(&self) -> File {
        *self.file
    }

    pub closed spec fn spec_list(&self) -> ErrorList {
        *self.elist
    }

    pub fn new(file: &'a File, elist: &'a mut ErrorList) -> (r: FilePosErrors<'a>)
        ensures r.spec_file() == *file, r.spec_list() == *old(elist),
    {
        FilePosErrors { file, elist }
    }

    /// Adds an error at `pos` of the file, not reported by the parser.
    pub fn add(&mut self, pos: Pos, msg: String, soft: bool)
        requires
            old(self).spec_file().wf(),
            old(self).spec_file().spec_base() <= pos <= old(self).spec_file().spec_base() + old(self).spec_file().spec_size(),
            is_continuation(msg@) ==> last_lead_order(old(self).spec_list().spec_errors()) is Some,
        ensures
            final(self).spec_file() == old(self).spec_file(),
            final(self).spec_list().spec_errors().drop_last() == old(self).spec_list().spec_errors(),
            final(self).spec_list().spec_errors().len() == old(self).spec_list().spec_errors().len() + 1,
            final(self).spec_list().spec_errors().last().msg == msg,
            final(self).spec_list().spec_errors().last().soft == soft,
            !final(self).spec_list().spec_errors().last().by_parser,
            final(self).spec_list().spec_errors().last().pos.offset == pos - old(self).spec_file().spec_base(),
            resolves(old(self).spec_file(), pos, final(self).spec_list().spec_errors().last().pos),
    {
        let p = self.file.position(pos);
        self.elist.add(Some(p), msg, soft, false);
    }

    pub fn add_str(&mut self, pos: Pos, s: &str, soft: bool)
        requires
            old(self).spec_file().wf(),
            old(self).spec_file().spec_base() <= pos <= old(self).spec_file().spec_base() + old(self).spec_file().spec_size(),
            is_continuation(s@) ==> last_lead_order(old(self).spec_list().spec_errors()) is Some,
        ensures
            final(self).spec_file() == old(self).spec_file(),
            final(self).spec_list().spec_errors().drop_last() == old(self).spec_list().spec_errors(),
            final(self).spec_list().spec_errors().len() == old(self).spec_list().spec_errors().len() + 1,
            final(self).spec_list().spec_errors().last().msg@ == s@,
            final(self).spec_list().spec_errors().last().soft == soft,
    {
        self.add(pos, String::from_str(s), soft);
    }

    /// Adds a parser error at `pos` of the file.
    pub fn parser_add(&mut self, pos: Pos, msg: String)
        requires
            old(self).spec_file().wf(),
            old(self).spec_file().spec_base() <= pos <= old(self).spec_file().spec_base() + old(self).spec_file().spec_size(),
            is_continuation(msg@) ==> last_lead_order(old(self).spec_list().spec_errors()) is Some,
        ensures
            final(self).spec_file() == old(self).spec_file(),
            final(self).spec_list().spec_errors().drop_last() == old(self).spec_list().spec_errors(),
            final(self).spec_list().spec_errors().len() == old(self).spec_list().spec_errors().len() + 1,
            final(self).spec_list().spec_errors().last().msg == msg,
            final(self).spec_list().spec_errors().last().by_parser,
            !final(self).spec_list().spec_errors().last().soft,
            resolves(old(self).spec_file(), pos, final(self).spec_list().spec_errors().last().pos),
    {
        let p = self.file.position(pos);
        self.elist.add(Some(p), msg, false, true);
    }

    pub fn parser_add_str(&mut self, pos: Pos, s: &str)
        requires
            old(self).spec_file().wf(),
            old(self).spec_file().spec_base() <= pos <= old(self).spec_file().spec_base() + old(self).spec_file().spec_size(),
            is_continuation(s@) ==> last_lead_order(old(self).spec_list().spec_errors()) is Some,
        ensures
            final(self).spec_file() == old(self).spec_file(),
            final(self).spec_list().spec_errors().drop_last() == old(self).spec_list().spec_errors(),
            final(self).spec_list().spec_errors().len() == old(self).spec_list().spec_errors().len() + 1,
            final(self).spec_list().spec_errors().last().msg@ == s@,
            final(self).spec_list().spec_errors().last().by_parser,
    {
        self.parser_add(pos, String::from_str(s));
    }
}

} // verus!
