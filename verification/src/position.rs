//! Source positions: files with their line tables, and sets of files that
//! share one position space.
use vstd::prelude::*;
use crate::strs::{string_push, string_push_str, push_decimal, decimal};

verus! {

/// A position: an offset (in characters) in the position space of a `FileSet`.
pub type Pos = usize;

/// A resolved position: file name, character offset within the file, and the
/// 1-based line and column (line 0 means "no position").
#[derive(Clone, Debug)]
pub struct FilePos {
    pub filename: String,
    pub offset: usize,
    pub line: usize,
    pub column: usize,
}

impl FilePos {
    /// An equal copy of the position.
    pub fn duplicate(&self) -> (r: FilePos)
        ensures r == *self,
    {
        FilePos { filename: self.filename.clone(), offset: self.offset, line: self.line, column: self.column }
    }

    pub fn is_valid(&self) -> (r: bool)
        ensures r == (self.line > 0),
    {
        self.line > 0
    }

    /// The position that stands for "no position".
    pub fn null() -> (r: FilePos)
        ensures
            r.filename@ == "[null_file]"@,
            r.line == 0,
            r.offset == 0,
            r.column == 0,
    {
        FilePos { filename: String::from_str("[null_file]"), line: 0, offset: 0, column: 0 }
    }

    /// `file:line:column`, leaving out what is not known; `-` when nothing is.
    pub fn display_string(&self) -> (r: String)
        ensures
            r@ == file_pos_text(self.filename@, self.line, self.column),
    {
        let mut s = self.filename.clone();
        if self.is_valid() {
            if s.as_str().unicode_len() != 0 {
                string_push(&mut s, ':');
            }
            push_decimal(&mut s, self.line);
        }
        if self.column != 0 {
            string_push(&mut s, ':');
            push_decimal(&mut s, self.column);
        }
        if s.as_str().unicode_len() == 0 {
            string_push(&mut s, '-');
        }
        s
    }
}

/// The display text of a resolved position.
pub open spec fn file_pos_text(name: Seq<char>, line: usize, column: usize) -> Seq<char> {
    let a = if line > 0 {
        if name.len() != 0 { name.push(':') + decimal(line as nat) } else { decimal(line as nat) }
    } else {
        name
    };
    let b = if column != 0 { a.push(':') + decimal(column as nat) } else { a };
    if b.len() == 0 { seq!['-'] } else { b }
}

/// A source file within a position space: its base position, its size and
/// `fp` is position `p` of file `f`: the file's name, the offset in the
/// file, the line whose start is the last one at or before the offset, and
/// the column counted from 1 within that line.
pub open spec fn resolves(f: File, p: Pos, fp: FilePos) -> bool {
    &&& fp.filename@ == f.spec_name()
    &&& fp.offset == p - f.spec_base()
    &&& 1 <= fp.line <= f.spec_lines().len()
    &&& forall|j: int| 0 <= j < fp.line ==> #[trigger] f.spec_lines()[j] <= fp.offset
    &&& fp.line < f.spec_lines().len() ==> f.spec_lines()[fp.line as int] > fp.offset
    &&& fp.column == fp.offset - f.spec_lines()[fp.line - 1] + 1
}

/// the offsets at which its lines start.
#[derive(Debug)]
pub struct File {
    name: String,
    base: usize,
    size: usize,
    lines: Vec<usize>,
}

/// The 1-based line that holds `offset`: the index of the first line start
/// after `offset`, or the number of lines if there is none.
pub open spec fn line_of(lines: Seq<usize>, offset: int) -> int
    decreases lines.len(),
{
    if lines.len() == 0 {
        0
    } else if lines.last() > offset {
        let k = line_of(lines.drop_last(), offset);
        if k < lines.len() - 1 { k } else { lines.len() - 1 }
    } else {
        let k = line_of(lines.drop_last(), offset);
        if k < lines.len() - 1 { k } else { lines.len() as int }
    }
}

impl File {
    pub closed spec fn spec_name(&self) -> Seq<char> {
        self.name@
    }

    pub closed spec fn spec_base(&self) -> usize {
        self.base
    }

    pub closed spec fn spec_size(&self) -> usize {
        self.size
    }

    pub closed spec fn spec_lines(&self) -> Seq<usize> {
        self.lines@
    }

    /// A file has at least one line, its first line starts at offset 0, and
    /// its positions fit in a `usize`.
    pub open spec fn wf(&self) -> bool {
        &&& self.spec_lines().len() >= 1
        &&& self.spec_lines()[0] == 0
        &&& self.spec_base() + self.spec_size() < usize::MAX
    }

    pub fn new(name: String) -> (r: File)
        ensures
            r.wf(),
            r.spec_name() == name@,
            r.spec_base() == 0,
            r.spec_size() == 0,
            r.spec_lines() == seq![0usize],
    {
        File { name, base: 0, size: 0, lines: vec![0] }
    }

    pub fn name(&self) -> (r: &str)
        ensures r@ == self.spec_name(),
    {
        self.name.as_str()
    }

    pub fn base(&self) -> (r: usize)
        ensures r == self.spec_base(),
    {
        self.base
    }

    pub fn size(&self) -> (r: usize)
        ensures r == self.spec_size(),
    {
        self.size
    }

    /// Sets the number of characters of the file.
    pub fn set_size(&mut self, size: usize)
        requires
            old(self).wf(),
            old(self).spec_base() + size < usize::MAX,
        ensures
            final(self).wf(),
            final(self).spec_size() == size,
            final(self).spec_name() == old(self).spec_name(),
            final(self).spec_base() == old(self).spec_base(),
            final(self).spec_lines() == old(self).spec_lines(),
    {
        self.size = size;
    }

    pub fn line_count(&self) -> (r: usize)
        ensures r == self.spec_lines().len(),
    {
        self.lines.len()
    }

    /// Records that a line starts at `offset`, if it lies after the last
    /// recorded line start and inside the file.
    pub fn add_line(&mut self, offset: usize)
        requires old(self).wf(),
        ensures
            final(self).wf(),
            final(self).spec_name() == old(self).spec_name(),
            final(self).spec_base() == old(self).spec_base(),
            final(self).spec_size() == old(self).spec_size(),
            final(self).spec_lines() == if old(self).spec_lines().last() < offset && offset < old(self).spec_size() {
                old(self).spec_lines().push(offset)
            } else {
                old(self).spec_lines()
            },
    {
        let i = self.line_count();
        if (i == 0 || self.lines[i - 1] < offset) && offset < self.size {
            self.lines.push(offset);
        }
    }

    /// Removes the line table entry at index `line` (1-based line numbering,
    /// so this joins line `line` with the line after it).
    pub fn merge_line(&mut self, line: usize)
        requires
            old(self).wf(),
            1 <= line < old(self).spec_lines().len(),
        ensures
            final(self).wf(),
            final(self).spec_name() == old(self).spec_name(),
            final(self).spec_base() == old(self).spec_base(),
            final(self).spec_size() == old(self).spec_size(),
            final(self).spec_lines() == old(self).spec_lines().remove(line as int),
    {
        let mut out: Vec<usize> = Vec::new();
        let mut i: usize = 0;
        while i < self.lines.len()
            invariant
                i <= self.lines@.len(),
                1 <= line < self.lines@.len(),
                out@ == (if i <= line { self.lines@.subrange(0, i as int) } else {
                    self.lines@.subrange(0, line as int) + self.lines@.subrange(line + 1, i as int)
                }),
            decreases self.lines@.len() - i,
        {
            if i != line {
                out.push(self.lines[i]);
            }
            proof {
                if i < line {
                    assert(out@ =~= self.lines@.subrange(0, i + 1));
                } else if i == line {
                    assert(out@ =~= self.lines@.subrange(0, line as int) + self.lines@.subrange(line + 1, i + 1));
                } else {
                    assert(out@ =~= self.lines@.subrange(0, line as int) + self.lines@.subrange(line + 1, i + 1));
                }
            }
            i += 1;
        }
        assert(out@ =~= self.lines@.remove(line as int));
        self.lines = out;
    }

    /// Replaces the line table after checking the current one; with a
    /// non-empty table whose first entry is 0 the check only passes for an
    /// empty file, and then reports failure without a change.
    pub fn set_lines(&mut self, lines: Vec<usize>) -> (r: bool)
        requires
            old(self).wf(),
            old(self).spec_size() == 0,
        ensures
            !r,
            *final(self) == *old(self),
    {
        let size = self.size;
        let mut i: usize = 0;
        while i < self.lines.len()
            invariant
                i == 0,
                size == self.size,
                self.size == 0,
                self.lines@.len() >= 1,
            decreases self.lines@.len() - i,
        {
            let offset = self.lines[i];
            if i == 0 && size <= offset {
                return false;
            }
            i += 1;
        }
        self.lines = lines;
        true
    }

    /// Appends one line start per line of `content`: the offset of its first
    /// character and of each character that follows a newline.
    pub fn set_lines_for_content(&mut self, content: &[char])
        requires old(self).wf(),
        ensures
            final(self).wf(),
            final(self).spec_name() == old(self).spec_name(),
            final(self).spec_base() == old(self).spec_base(),
            final(self).spec_size() == old(self).spec_size(),
            final(self).spec_lines() == old(self).spec_lines() + line_starts(content@),
    {
        let mut new_line = true;
        let mut line: usize = 0;
        let mut offset: usize = 0;
        let ghost start = self.lines@;
        while offset < content.len()
            invariant
                offset <= content@.len(),
                start.len() >= 1,
                start[0] == 0,
                self.lines@ == start + line_starts(content@.subrange(0, offset as int)),
                new_line == (offset == 0 || content@[offset - 1] == '\n'),
                new_line ==> line == offset,
                self.name == old(self).name,
                self.base == old(self).base,
                self.size == old(self).size,
                self.base + self.size < usize::MAX,
            decreases content@.len() - offset,
        {
            if new_line {
                self.lines.push(line);
            }
            new_line = false;
            if content[offset] == '\n' {
                new_line = true;
                line = offset + 1;
            }
            proof {
                lemma_line_starts_step(content@, offset as int);
            }
            offset += 1;
        }
        assert(content@.subrange(0, content@.len() as int) =~= content@);
    }

    /// The position at which line `line` (1-based) starts.
    pub fn line_start(&self, line: usize) -> (r: usize)
        requires
            self.wf(),
            1 <= line < self.spec_lines().len(),
            self.spec_base() + self.spec_lines()[line - 1] <= usize::MAX,
        ensures r == self.spec_base() + self.spec_lines()[line - 1],
    {
        self.base + self.lines[line - 1]
    }

    /// The position of the character at `offset` in this file.
    pub fn pos(&self, offset: usize) -> (r: Pos)
        requires
            self.wf(),
            offset <= self.spec_size(),
        ensures r == self.spec_base() + offset,
    {
        self.base + offset
    }

    /// Resolves a position of this file to its offset, line and column.
    pub fn position(&self, p: Pos) -> (r: FilePos)
        requires
            self.wf(),
            self.spec_base() <= p <= self.spec_base() + self.spec_size(),
        ensures
            r.filename@ == self.spec_name(),
            r.offset == p - self.spec_base(),
            1 <= r.line <= self.spec_lines().len(),
            forall|j: int| 0 <= j < r.line ==> #[trigger] self.spec_lines()[j] <= r.offset,
            r.line < self.spec_lines().len() ==> self.spec_lines()[r.line as int] > r.offset,
            r.column == r.offset - self.spec_lines()[r.line - 1] + 1,
            resolves(*self, p, r),
    {
        let offset = p - self.base;
        let n = self.lines.len();
        let mut i: usize = 0;
        while i < n && self.lines[i] <= offset
            invariant
                self.wf(),
                offset == p - self.base,
                n == self.lines@.len(),
                i <= n,
                forall|j: int| 0 <= j < i ==> #[trigger] self.lines@[j] <= offset,
            decreases n - i,
        {
            i += 1;
        }
        let line = i;
        let column = offset - self.lines[line - 1] + 1;
        FilePos { filename: self.name.clone(), line, offset, column }
    }
}

/// The offsets at which the lines of `content` start: 0 (if there is any
/// content) and the offset after each newline that is followed by more content.
pub open spec fn line_starts(content: Seq<char>) -> Seq<usize>
    decreases content.len(),
{
    if content.len() == 0 {
        Seq::empty()
    } else {
        let prev = content.drop_last();
        let i = content.len() - 1;
        if i == 0 || prev.last() == '\n' {
            line_starts(prev).push(i as usize)
        } else {
            line_starts(prev)
        }
    }
}

proof fn lemma_line_starts_step(content: Seq<char>, i: int)
    requires 0 <= i < content.len(),
    ensures
        line_starts(content.subrange(0, i + 1)) == if i == 0 || content[i - 1] == '\n' {
            line_starts(content.subrange(0, i)).push(i as usize)
        } else {
            line_starts(content.subrange(0, i))
        },
{
    let s = content.subrange(0, i + 1);
    assert(s.drop_last() =~= content.subrange(0, i));
}

/// A set of files sharing one position space; each added file takes the
/// positions after those of the files before it.
#[derive(Debug)]
pub struct FileSet {
    base: usize,
    files: Vec<File>,
}

impl FileSet {
    pub closed spec fn spec_base(&self) -> usize {
        self.base
    }

    pub closed spec fn spec_files(&self) -> Seq<File> {
        self.files@
    }

    /// Every file of the set is well formed.
    pub open spec fn wf(&self) -> bool {
        forall|i: int| 0 <= i < self.spec_files().len() ==> #[trigger] self.spec_files()[i].wf()
    }

    pub fn new() -> (r: FileSet)
        ensures
            r.wf(),
            r.spec_base() == 0,
            r.spec_files().len() == 0,
    {
        FileSet { base: 0, files: Vec::new() }
    }

    pub fn base(&self) -> (r: usize)
        ensures r == self.spec_base(),
    {
        self.base
    }

    /// The files of the set, in the order they were added.
    pub fn iter(&self) -> (r: &[File])
        ensures r@ == self.spec_files(),
    {
        self.files.as_slice()
    }

    /// The first file whose positions include `p`.
    pub fn file(&self, p: Pos) -> (r: Option<&File>)
        requires self.wf(),
        ensures
            match r {
                Some(f) => exists|i: int| 0 <= i < self.spec_files().len()
                    && self.spec_files()[i] == *f
                    && file_covers(*f, p)
                    && (forall|j: int| 0 <= j < i ==> !file_covers(#[trigger] self.spec_files()[j], p)),
                None => forall|j: int| 0 <= j < self.spec_files().len() ==> !file_covers(#[trigger] self.spec_files()[j], p),
            },
    {
        let mut i: usize = 0;
        while i < self.files.len()
            invariant
                self.wf(),
                i <= self.files@.len(),
                forall|j: int| 0 <= j < i ==> !file_covers(#[trigger] self.files@[j], p),
            decreases self.files@.len() - i,
        {
            let f = &self.files[i];
            assert(f.wf());
            if f.base <= p && f.base + f.size >= p {
                return Some(f);
            }
            i += 1;
        }
        None
    }

    /// Resolves a position to the file that holds it.
    pub fn position(&self, p: Pos) -> (r: Option<FilePos>)
        requires self.wf(),
        ensures
            r is Some <==> exists|j: int| 0 <= j < self.spec_files().len() && file_covers(#[trigger] self.spec_files()[j], p),
            r matches Some(fp) ==> exists|i: int| 0 <= i < self.spec_files().len()
                && #[trigger] file_covers(self.spec_files()[i], p)
                && fp.filename@ == self.spec_files()[i].spec_name()
                && fp.offset == p - self.spec_files()[i].spec_base()
                && 1 <= fp.line <= self.spec_files()[i].spec_lines().len(),
            r is Some <==> line_at(*self, p) is Some,
            r matches Some(fp) ==> line_at(*self, p) == Some(fp.line),
            r matches Some(fp) ==> column_at(*self, p) == Some(fp.column),
    {
        let mut i: usize = 0;
        while i < self.files.len()
            invariant
                self.wf(),
                i <= self.files@.len(),
                forall|j: int| 0 <= j < i ==> !file_covers(#[trigger] self.files@[j], p),
            decreases self.files@.len() - i,
        {
            let f = &self.files[i];
            assert(f.wf());
            if f.base <= p && f.base + f.size >= p {
                let fp = f.position(p);
                proof {
                    lemma_first_covering(self.files@, p, i as int);
                    lemma_line_in(f.spec_lines(), fp.offset as int, fp.line as int);
                }
                return Some(fp);
            }
            i += 1;
        }
        proof { lemma_first_covering(self.files@, p, i as int); }
        None
    }

    /// The file at index `i`, if there is one.
    pub fn index_file(&mut self, i: usize) -> (r: Option<&mut File>)
        requires old(self).wf(),
        ensures
            i >= old(self).spec_files().len() ==> r is None && *final(self) == *old(self),
            i < old(self).spec_files().len() ==> (r matches Some(f) && *f == old(self).spec_files()[i as int]
                && final(self).spec_files() == old(self).spec_files().update(i as int, *final(f))
                && final(self).spec_base() == old(self).spec_base()),
    {
        if i >= self.files.len() {
            None
        } else {
            Some(&mut self.files[i])
        }
    }

    /// The most recently added file, if any.
    pub fn recent_file(&mut self) -> (r: Option<&mut File>)
        requires old(self).wf(),
        ensures
            old(self).spec_files().len() == 0 ==> r is None && *final(self) == *old(self),
            old(self).spec_files().len() > 0 ==> (r matches Some(f)
                && *f == old(self).spec_files().last()
                && final(self).spec_files() == old(self).spec_files().update(old(self).spec_files().len() - 1, *final(f))
                && final(self).spec_base() == old(self).spec_base()),
    {
        let c = self.files.len();
        if c == 0 {
            None
        } else {
            self.index_file(c - 1)
        }
    }

    /// Adds a file of `size` characters at `base` (by default the set's
    /// current base); the set's base moves past the file and its end position.
    pub fn add_file(&mut self, name: String, base: Option<usize>, size: usize) -> (r: &mut File)
        requires
            old(self).wf(),
            base matches Some(b) ==> b >= old(self).spec_base() && b + size < usize::MAX,
            old(self).spec_base() + size + 1 <= usize::MAX,
        ensures
            r.wf(),
            r.spec_name() == name@,
            r.spec_base() == (match base { Some(b) => b, None => old(self).spec_base() }),
            r.spec_size() == size,
            r.spec_lines() == seq![0usize],
            final(self).spec_base() == old(self).spec_base() + size + 1,
            final(self).spec_files() == old(self).spec_files().push(*final(r)),
    {
        let real_base = match base {
            Some(b) => b,
            None => self.base,
        };
        let mut f = File::new(name);
        f.base = real_base;
        f.size = size;
        let set_base = self.base + size + 1;
        self.base = set_base;
        self.files.push(f);
        let n = self.files.len() - 1;
        &mut self.files[n]
    }
}

/// The index of the first file of `files` whose positions include `p`
/// (the number of files if there is none).
pub open spec fn first_covering(files: Seq<File>, p: Pos) -> int
    decreases files.len(),
{
    if files.len() == 0 {
        0
    } else if file_covers(files[0], p) {
        0
    } else {
        1 + first_covering(files.drop_first(), p)
    }
}

/// The 1-based line of offset `off` given the line starts `lines`: the
/// index of the first line start after `off`.
pub open spec fn line_in(lines: Seq<usize>, off: int) -> int
    decreases lines.len(),
{
    if lines.len() == 0 {
        0
    } else if lines[0] > off {
        0
    } else {
        1 + line_in(lines.drop_first(), off)
    }
}

/// The line of position `p` in the first file of the set that holds it.
pub open spec fn line_at(fs: FileSet, p: Pos) -> Option<usize> {
    let files = fs.spec_files();
    let i = first_covering(files, p);
    if i < files.len() {
        Some(line_in(files[i].spec_lines(), p - files[i].spec_base()) as usize)
    } else {
        None
    }
}

/// The column of position `p` in the first file of the set that holds it.
pub open spec fn column_at(fs: FileSet, p: Pos) -> Option<usize> {
    let files = fs.spec_files();
    let i = first_covering(files, p);
    if i < files.len() {
        let off = p - files[i].spec_base();
        let l = line_in(files[i].spec_lines(), off);
        Some((off - files[i].spec_lines()[l - 1] + 1) as usize)
    } else {
        None
    }
}

proof fn lemma_first_covering(files: Seq<File>, p: Pos, i: int)
    requires
        0 <= i <= files.len(),
        forall|j: int| 0 <= j < i ==> !file_covers(#[trigger] files[j], p),
        i < files.len() ==> file_covers(files[i], p),
    ensures first_covering(files, p) == i,
    decreases files.len(),
{
    if files.len() > 0 && i > 0 {
        assert(!file_covers(files[0], p));
        assert forall|j: int| 0 <= j < i - 1 implies !file_covers(#[trigger] files.drop_first()[j], p) by {
            assert(files.drop_first()[j] == files[j + 1]);
        };
        if i < files.len() {
            assert(files.drop_first()[i - 1] == files[i]);
        }
        lemma_first_covering(files.drop_first(), p, i - 1);
    }
}

proof fn lemma_line_in(lines: Seq<usize>, off: int, line: int)
    requires
        0 <= line <= lines.len(),
        forall|j: int| 0 <= j < line ==> #[trigger] lines[j] <= off,
        line < lines.len() ==> lines[line] > off,
    ensures line_in(lines, off) == line,
    decreases lines.len(),
{
    if lines.len() > 0 && line > 0 {
        assert(lines[0] <= off);
        assert forall|j: int| 0 <= j < line - 1 implies #[trigger] lines.drop_first()[j] <= off by {
            assert(lines.drop_first()[j] == lines[j + 1]);
        };
        if line < lines.len() {
            assert(lines.drop_first()[line - 1] == lines[line]);
        }
        lemma_line_in(lines.drop_first(), off, line - 1);
    }
}

/// Whether the positions of file `f` include `p` (its end position too).
pub open spec fn file_covers(f: File, p: Pos) -> bool {
    f.spec_base() <= p && p <= f.spec_base() + f.spec_size()
}

} // verus!
