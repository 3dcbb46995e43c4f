//! Putting recording statements into Go source text: the text is taken
//! line by line, and after each line that opens the branch being recorded
//! (near the branch's line, inside its function) a recording statement is
//! added.
use vstd::prelude::*;
use crate::branch_cov::{trim_start_ws, trim_end_ws};
use crate::branch_cov::instrumentation::{FunctionInstrumentation, InstrumentedBranch};
use crate::strs::{
    is_whitespace, char_is_whitespace, chars_contain, chars_start_with, seq_contains, seq_starts_with, str_to_chars,
    string_from_chars, string_push_str, decimal,
};

verus! {

/// A line without a carriage return that ended it.
pub open spec fn strip_cr(line: Seq<char>) -> Seq<char> {
    if line.len() > 0 && line.last() == '\r' { line.drop_last() } else { line }
}

/// The finished lines and the line being read after the characters `s`.
pub open spec fn split_state(s: Seq<char>) -> (Seq<Seq<char>>, Seq<char>)
    decreases s.len(),
{
    if s.len() == 0 {
        (Seq::empty(), Seq::empty())
    } else {
        let (done, cur) = split_state(s.drop_last());
        if s.last() == '\n' { (done.push(strip_cr(cur)), Seq::empty()) } else { (done, cur.push(s.last())) }
    }
}

/// The lines of a text (`str::lines`): split at `\n` or `\r\n`, the last
/// line ending being optional.
pub open spec fn split_lines(s: Seq<char>) -> Seq<Seq<char>> {
    let (done, cur) = split_state(s);
    if cur.len() > 0 { done.push(cur) } else { done }
}

/// The lines joined with `\n` between them.
pub open spec fn join_lines(lines: Seq<Seq<char>>) -> Seq<char>
    decreases lines.len(),
{
    if lines.len() == 0 {
        Seq::empty()
    } else if lines.len() == 1 {
        lines[0]
    } else {
        join_lines(lines.drop_last()) + seq!['\n'] + lines.last()
    }
}

/// The lines of a text.
pub fn lines_of(s: &[char]) -> (r: Vec<Vec<char>>)
    ensures r@.map_values(|l: Vec<char>| l@) == split_lines(s@),
{
    let mut done: Vec<Vec<char>> = Vec::new();
    let mut cur: Vec<char> = Vec::new();
    let mut i: usize = 0;
    while i < s.len()
        invariant
            i <= s@.len(),
            (done@.map_values(|l: Vec<char>| l@), cur@) == split_state(s@.subrange(0, i as int)),
        decreases s@.len() - i,
    {
        proof { assert(s@.subrange(0, i + 1).drop_last() =~= s@.subrange(0, i as int)); }
        let ghost d0 = done@.map_values(|l: Vec<char>| l@);
        if s[i] == '\n' {
            let mut line = cur;
            if line.len() > 0 && line[line.len() - 1] == '\r' {
                line.pop();
            }
            done.push(line);
            cur = Vec::new();
            assert(done@.map_values(|l: Vec<char>| l@) =~= d0.push(strip_cr(split_state(s@.subrange(0, i as int)).1)));
        } else {
            cur.push(s[i]);
            assert(done@.map_values(|l: Vec<char>| l@) =~= d0);
        }
        i += 1;
    }
    assert(s@.subrange(0, s@.len() as int) =~= s@);
    if cur.len() > 0 {
        let ghost d0 = done@.map_values(|l: Vec<char>| l@);
        done.push(cur);
        assert(done@.map_values(|l: Vec<char>| l@) =~= d0.push(split_state(s@).1));
    }
    done
}

/// The lines joined with `\n` between them.
pub fn join_with_newlines(lines: &Vec<Vec<char>>) -> (r: String)
    ensures r@ == join_lines(lines@.map_values(|l: Vec<char>| l@)),
{
    let mut out: Vec<char> = Vec::new();
    let mut i: usize = 0;
    while i < lines.len()
        invariant
            i <= lines@.len(),
            out@ == join_lines(lines@.subrange(0, i as int).map_values(|l: Vec<char>| l@)),
        decreases lines@.len() - i,
    {
        let ghost pre = lines@.subrange(0, i as int).map_values(|l: Vec<char>| l@);
        let ghost post = lines@.subrange(0, i + 1).map_values(|l: Vec<char>| l@);
        assert(post.drop_last() =~= pre);
        assert(post.last() == lines@[i as int]@);
        if i > 0 {
            out.push('\n');
        }
        let mut k: usize = 0;
        let ghost base = out@;
        while k < lines[i].len()
            invariant
                i < lines@.len(),
                k <= lines@[i as int]@.len(),
                out@ == base + lines@[i as int]@.subrange(0, k as int),
            decreases lines@[i as int]@.len() - k,
        {
            out.push(lines[i][k]);
            assert(out@ =~= base + lines@[i as int]@.subrange(0, k + 1));
            k += 1;
        }
        assert(lines@[i as int]@.subrange(0, k as int) =~= lines@[i as int]@);
        assert(out@ =~= join_lines(post));
        i += 1;
    }
    assert(lines@.subrange(0, lines@.len() as int) =~= lines@);
    string_from_chars(out.as_slice())
}

/// How many times `c` occurs in `s`.
pub open spec fn count_char(s: Seq<char>, c: char) -> nat
    decreases s.len(),
{
    if s.len() == 0 { 0 } else { count_char(s.drop_last(), c) + if s.last() == c { 1nat } else { 0nat } }
}

fn count_of(s: &[char], c: char) -> (r: usize)
    ensures r == count_char(s@, c),
{
    let mut n: usize = 0;
    let mut i: usize = 0;
    while i < s.len()
        invariant
            i <= s@.len(),
            n == count_char(s@.subrange(0, i as int), c),
            n <= i,
        decreases s@.len() - i,
    {
        proof { assert(s@.subrange(0, i + 1).drop_last() =~= s@.subrange(0, i as int)); }
        if s[i] == c {
            n += 1;
        }
        i += 1;
    }
    assert(s@.subrange(0, s@.len() as int) =~= s@);
    n
}

/// `s` without white space at either end (`str::trim`).
pub open spec fn trim_ws(s: Seq<char>) -> Seq<char> {
    trim_end_ws(trim_start_ws(s))
}

fn trimmed(s: &[char]) -> (r: Vec<char>)
    ensures r@ == trim_ws(s@),
{
    let n = s.len();
    let mut a: usize = 0;
    assert(s@.subrange(0, n as int) =~= s@);
    while a < n && is_whitespace(s[a])
        invariant
            a <= n,
            n == s@.len(),
            trim_start_ws(s@) == trim_start_ws(s@.subrange(a as int, n as int)),
        decreases n - a,
    {
        let ghost cur = s@.subrange(a as int, n as int);
        assert(cur.drop_first() =~= s@.subrange(a + 1, n as int));
        a += 1;
    }
    let ghost lead = s@.subrange(a as int, n as int);
    let mut b: usize = n;
    assert(s@.subrange(a as int, b as int) =~= lead);
    while b > a && is_whitespace(s[b - 1])
        invariant
            a <= b <= n,
            n == s@.len(),
            lead == s@.subrange(a as int, n as int),
            trim_end_ws(lead) == trim_end_ws(s@.subrange(a as int, b as int)),
        decreases b - a,
    {
        let ghost cur = s@.subrange(a as int, b as int);
        assert(cur.drop_last() =~= s@.subrange(a as int, b - 1));
        b -= 1;
    }
    let mut out: Vec<char> = Vec::new();
    let mut k: usize = a;
    while k < b
        invariant
            a <= k <= b <= n,
            n == s@.len(),
            out@ == s@.subrange(a as int, k as int),
        decreases b - k,
    {
        out.push(s[k]);
        assert(out@ =~= s@.subrange(a as int, k + 1));
        k += 1;
    }
    out
}

/// What the recording of one branch looks at: the function, the branch
/// type, the branch's line, the successor's index and the branch id.
pub struct TrackTarget {
    pub func_name: Seq<char>,
    pub branch_type: Seq<char>,
    pub target_line: int,
    pub succ_idx: int,
    pub branch_id: Seq<char>,
}

/// Whether the recording goes after line `line`, numbered `lc`, inside the
/// function; and whether deciding it subtracts from the branch's line more
/// than the line is (which the unsigned arithmetic cannot).
pub open spec fn track_decision(t: TrackTarget, line: Seq<char>, lc: int) -> (bool, bool) {
    let tl = t.target_line;
    if t.branch_type == "if"@ {
        if seq_starts_with(trim_ws(line), "if "@) {
            if lc == tl {
                (t.succ_idx == 0 && seq_contains(line, "{"@), true)
            } else {
                (lc >= tl - 2 && lc <= tl + 2 && t.succ_idx == 0 && seq_contains(line, "{"@), tl >= 2)
            }
        } else {
            (seq_starts_with(trim_ws(line), "} else"@) && t.succ_idx == 1, true)
        }
    } else if t.branch_type == "switch"@ {
        if seq_contains(line, "case "@) || seq_contains(line, "default:"@) {
            (lc >= tl - 5 && lc <= tl + 10, tl >= 5)
        } else {
            (false, true)
        }
    } else if t.branch_type == "range"@ || t.branch_type == "for"@ {
        if seq_contains(line, "for "@) || seq_contains(line, "range "@) {
            if lc == tl {
                (t.succ_idx == 0, true)
            } else {
                (lc >= tl - 1 && lc <= tl + 1 && t.succ_idx == 0, tl >= 1)
            }
        } else {
            (false, true)
        }
    } else {
        if seq_contains(line, "if "@) || seq_contains(line, "for "@) || seq_contains(line, "switch "@)
            || seq_contains(line, "case "@) {
            (lc >= tl - 2 && lc <= tl + 2, tl >= 2)
        } else {
            (false, true)
        }
    }
}

/// The recording statement put after a line.
pub open spec fn tracking_line(branch_id: Seq<char>) -> Seq<char> {
    "    fmt.Printf(\"BRANCH_COV:"@ + branch_id + "\\n\")"@
}

/// The state after the first `n` lines: the output lines, whether the
/// function is being read, the brace balance, and whether every decision so
/// far was defined.
pub open spec fn track_state(t: TrackTarget, lines: Seq<Seq<char>>, n: nat) -> (Seq<Seq<char>>, bool, int, bool)
    decreases n,
{
    if n == 0 || n > lines.len() {
        (Seq::empty(), false, 0, true)
    } else {
        let (out, in_fn, brace, ok) = track_state(t, lines, (n - 1) as nat);
        let line = lines[n - 1];
        let d = track_decision(t, line, n as int);
        let should = in_fn && d.0;
        let ok2 = ok && (in_fn ==> d.1);
        let enters = seq_contains(line, "func "@ + t.func_name) || seq_contains(line, "func "@ + t.func_name + "("@);
        let in1 = in_fn || enters;
        let b1 = if enters { 0 } else { brace };
        let b2 = if in1 { b1 + count_char(line, '{') - count_char(line, '}') } else { b1 };
        let in2 = in1 && !(b2 <= 0 && seq_contains(line, "}"@) && !seq_contains(line, "{"@));
        let out1 = out.push(line);
        let out2 = if should { out1.push(tracking_line(t.branch_id)) } else { out1 };
        (out2, in2, b2, ok2)
    }
}

/// The text with the recording of one branch added (see `track_state`).
pub open spec fn tracked_text(t: TrackTarget, content: Seq<char>) -> Seq<char> {
    let lines = split_lines(content);
    join_lines(track_state(t, lines, lines.len()).0)
}

/// Every decision on the text is defined: no line inside the function
/// makes the branch's line smaller than zero.
pub open spec fn tracking_defined(t: TrackTarget, content: Seq<char>) -> bool {
    let lines = split_lines(content);
    track_state(t, lines, lines.len()).3
}

/// Adds the recording of branch `branch_id` (successor `succ_idx` of a
/// branch of type `branch_type` at `target_line` in function `func_name`)
/// after each line that opens that way of the branch (see `track_decision`).
pub fn add_branch_specific_tracking(content: &str, func_name: &str, branch_type: &str, target_line: usize,
    succ_idx: usize, branch_id: &str) -> (r: String)
    requires
        content@.len() <= i32::MAX,
        target_line + 10 <= usize::MAX,
        tracking_defined(TrackTarget { func_name: func_name@, branch_type: branch_type@, target_line: target_line as int,
            succ_idx: succ_idx as int, branch_id: branch_id@ }, content@),
    ensures
        r@ == tracked_text(TrackTarget { func_name: func_name@, branch_type: branch_type@, target_line: target_line as int,
            succ_idx: succ_idx as int, branch_id: branch_id@ }, content@),
{
    let ghost t = TrackTarget { func_name: func_name@, branch_type: branch_type@, target_line: target_line as int,
        succ_idx: succ_idx as int, branch_id: branch_id@ };
    let cs = str_to_chars(content);
    let lines = lines_of(cs.as_slice());
    let ghost ls = lines@.map_values(|l: Vec<char>| l@);
    let mut head_a = String::new();
    string_push_str(&mut head_a, "func ");
    string_push_str(&mut head_a, func_name);
    let enter_a = str_to_chars(head_a.as_str());
    let mut enter_b = enter_a.clone();
    enter_b.push('(');
    proof {
        reveal_strlit("(");
        assert(enter_b@ =~= "func "@ + func_name@ + "("@);
    }
    let tracking = {
        let mut s = String::new();
        string_push_str(&mut s, "    fmt.Printf(\"BRANCH_COV:");
        string_push_str(&mut s, branch_id);
        string_push_str(&mut s, "\\n\")");
        str_to_chars(s.as_str())
    };
    let is_if = crate::strs::str_matches(branch_type, "if");
    let is_switch = crate::strs::str_matches(branch_type, "switch");
    let is_loop = crate::strs::str_matches(branch_type, "range") || crate::strs::str_matches(branch_type, "for");
    let if_kw = str_to_chars("if ");
    let else_kw = str_to_chars("} else");
    let case_kw = str_to_chars("case ");
    let default_kw = str_to_chars("default:");
    let for_kw = str_to_chars("for ");
    let range_kw = str_to_chars("range ");
    let switch_kw = str_to_chars("switch ");
    let open_kw = str_to_chars("{");
    let close_kw = str_to_chars("}");
    let mut result: Vec<Vec<char>> = Vec::new();
    let mut in_target_function = false;
    let mut brace_count: i32 = 0;
    let mut line_count: usize = 1;
    let mut i: usize = 0;
    proof { lemma_lines_size(cs@); }
    while i < lines.len()
        invariant
            t == (TrackTarget { func_name: func_name@, branch_type: branch_type@, target_line: target_line as int,
                succ_idx: succ_idx as int, branch_id: branch_id@ }),
            ls == lines@.map_values(|l: Vec<char>| l@),
            ls == split_lines(content@),
            ls.len() <= content@.len(),
            content@.len() <= i32::MAX,
            target_line + 10 <= usize::MAX,
            i <= lines@.len(),
            line_count == i + 1,
            track_state(t, ls, ls.len()).3,
            ({
                let st = track_state(t, ls, i as nat);
                &&& result@.map_values(|l: Vec<char>| l@) == st.0
                &&& in_target_function == st.1
                &&& brace_count == st.2
                &&& st.3
            }),
            -(total_len(ls, i as nat) as int) <= brace_count <= total_len(ls, i as nat),
            total_len(ls, ls.len()) <= content@.len(),
            enter_a@ == "func "@ + func_name@,
            enter_b@ == "func "@ + func_name@ + "("@,
            tracking@ == tracking_line(branch_id@),
            is_if == (branch_type@ == "if"@),
            is_switch == (branch_type@ == "switch"@),
            is_loop == (branch_type@ == "range"@ || branch_type@ == "for"@),
            if_kw@ == "if "@, else_kw@ == "} else"@, case_kw@ == "case "@, default_kw@ == "default:"@,
            for_kw@ == "for "@, range_kw@ == "range "@, switch_kw@ == "switch "@, open_kw@ == "{"@, close_kw@ == "}"@,
        decreases lines@.len() - i,
    {
        let line = &lines[i];
        proof { lemma_state_ok_prefix(t, ls, (i + 1) as nat, ls.len()); }
        let ghost d = track_decision(t, ls[i as int], line_count as int);
        assert(ls[i as int] == line@);
        assert(track_state(t, ls, (i + 1) as nat).3 ==> (in_target_function ==> d.1));
        assert(in_target_function ==> d.1);
        let should_add_tracking = if in_target_function {
            if is_if {
                let tl = trimmed(line.as_slice());
                if chars_start_with(tl.as_slice(), if_kw.as_slice()) {
                    if line_count == target_line {
                        succ_idx == 0 && chars_contain(line.as_slice(), open_kw.as_slice())
                    } else {
                        line_count >= target_line - 2 && line_count <= target_line + 2 && succ_idx == 0
                            && chars_contain(line.as_slice(), open_kw.as_slice())
                    }
                } else {
                    chars_start_with(tl.as_slice(), else_kw.as_slice()) && succ_idx == 1
                }
            } else if is_switch {
                if chars_contain(line.as_slice(), case_kw.as_slice()) || chars_contain(line.as_slice(), default_kw.as_slice()) {
                    line_count >= target_line - 5 && line_count <= target_line + 10
                } else {
                    false
                }
            } else if is_loop {
                if chars_contain(line.as_slice(), for_kw.as_slice()) || chars_contain(line.as_slice(), range_kw.as_slice()) {
                    if line_count == target_line {
                        succ_idx == 0
                    } else {
                        line_count >= target_line - 1 && line_count <= target_line + 1 && succ_idx == 0
                    }
                } else {
                    false
                }
            } else {
                if chars_contain(line.as_slice(), if_kw.as_slice()) || chars_contain(line.as_slice(), for_kw.as_slice())
                    || chars_contain(line.as_slice(), switch_kw.as_slice()) || chars_contain(line.as_slice(), case_kw.as_slice()) {
                    line_count >= target_line - 2 && line_count <= target_line + 2
                } else {
                    false
                }
            }
        } else {
            false
        };
        assert(should_add_tracking == (in_target_function && d.0));
        let ghost r0 = result@.map_values(|l: Vec<char>| l@);
        result.push(line.clone());
        let enters = chars_contain(line.as_slice(), enter_a.as_slice()) || chars_contain(line.as_slice(), enter_b.as_slice());
        if enters {
            in_target_function = true;
            brace_count = 0;
        }
        if in_target_function {
            let opens = count_of(line.as_slice(), '{');
            let closes = count_of(line.as_slice(), '}');
            proof {
                lemma_count_le(ls[i as int], '{');
                lemma_count_le(ls[i as int], '}');
                assert(ls[i as int] == line@);
                lemma_total_len_mono(ls, (i + 1) as nat, ls.len());
                assert(total_len(ls, (i + 1) as nat) == total_len(ls, i as nat) + ls[i as int].len());
            }
            brace_count = brace_count + opens as i32;
            brace_count = brace_count - closes as i32;
            if brace_count <= 0 && chars_contain(line.as_slice(), close_kw.as_slice())
                && !chars_contain(line.as_slice(), open_kw.as_slice()) {
                in_target_function = false;
            }
        }
        if should_add_tracking {
            result.push(tracking.clone());
        }
        proof {
            let st = track_state(t, ls, (i + 1) as nat);
            assert(ls[i as int] == line@);
            if should_add_tracking {
                assert(result@.map_values(|l: Vec<char>| l@) =~= r0.push(line@).push(tracking_line(branch_id@)));
            } else {
                assert(result@.map_values(|l: Vec<char>| l@) =~= r0.push(line@));
            }
            lemma_total_len_mono(ls, i as nat, (i + 1) as nat);
        }
        line_count += 1;
        i += 1;
    }
    join_with_newlines(&result)
}

/// Whether every decision on the text is defined (see `tracking_defined`).
pub fn tracking_is_defined(content: &str, func_name: &str, branch_type: &str, target_line: usize, succ_idx: usize)
    -> (r: bool)
    requires content@.len() <= i32::MAX,
    ensures
        r == tracking_defined(TrackTarget { func_name: func_name@, branch_type: branch_type@,
            target_line: target_line as int, succ_idx: succ_idx as int, branch_id: Seq::empty() }, content@),
{
    let ghost t = TrackTarget { func_name: func_name@, branch_type: branch_type@, target_line: target_line as int,
        succ_idx: succ_idx as int, branch_id: Seq::empty() };
    let cs = str_to_chars(content);
    let lines = lines_of(cs.as_slice());
    let ghost ls = lines@.map_values(|l: Vec<char>| l@);
    let mut head_a = String::new();
    string_push_str(&mut head_a, "func ");
    string_push_str(&mut head_a, func_name);
    let enter_a = str_to_chars(head_a.as_str());
    let mut enter_b = enter_a.clone();
    enter_b.push('(');
    proof {
        reveal_strlit("(");
        assert(enter_b@ =~= "func "@ + func_name@ + "("@);
    }
    let is_if = crate::strs::str_matches(branch_type, "if");
    let is_switch = crate::strs::str_matches(branch_type, "switch");
    let is_loop = crate::strs::str_matches(branch_type, "range") || crate::strs::str_matches(branch_type, "for");
    let if_kw = str_to_chars("if ");
    let case_kw = str_to_chars("case ");
    let default_kw = str_to_chars("default:");
    let for_kw = str_to_chars("for ");
    let range_kw = str_to_chars("range ");
    let switch_kw = str_to_chars("switch ");
    let open_kw = str_to_chars("{");
    let close_kw = str_to_chars("}");
    let mut ok = true;
    let mut in_target_function = false;
    let mut brace_count: i32 = 0;
    let mut line_count: usize = 1;
    let mut i: usize = 0;
    proof { lemma_lines_size(cs@); }
    while i < lines.len()
        invariant
            t == (TrackTarget { func_name: func_name@, branch_type: branch_type@, target_line: target_line as int,
                succ_idx: succ_idx as int, branch_id: Seq::empty() }),
            ls == lines@.map_values(|l: Vec<char>| l@),
            ls == split_lines(content@),
            ls.len() <= content@.len(),
            content@.len() <= i32::MAX,
            i <= lines@.len(),
            line_count == i + 1,
            ({
                let st = track_state(t, ls, i as nat);
                &&& in_target_function == st.1
                &&& brace_count == st.2
                &&& ok == st.3
            }),
            -(total_len(ls, i as nat) as int) <= brace_count <= total_len(ls, i as nat),
            total_len(ls, ls.len()) <= content@.len(),
            enter_a@ == "func "@ + func_name@,
            enter_b@ == "func "@ + func_name@ + "("@,
            is_if == (branch_type@ == "if"@),
            is_switch == (branch_type@ == "switch"@),
            is_loop == (branch_type@ == "range"@ || branch_type@ == "for"@),
            if_kw@ == "if "@, case_kw@ == "case "@, default_kw@ == "default:"@,
            for_kw@ == "for "@, range_kw@ == "range "@, switch_kw@ == "switch "@, open_kw@ == "{"@, close_kw@ == "}"@,
        decreases lines@.len() - i,
    {
        let line = &lines[i];
        let ghost d = track_decision(t, ls[i as int], line_count as int);
        assert(ls[i as int] == line@);
        let defined_here = if is_if {
            let tl = trimmed(line.as_slice());
            if chars_start_with(tl.as_slice(), if_kw.as_slice()) {
                line_count == target_line || target_line >= 2
            } else {
                true
            }
        } else if is_switch {
            if chars_contain(line.as_slice(), case_kw.as_slice()) || chars_contain(line.as_slice(), default_kw.as_slice()) {
                target_line >= 5
            } else {
                true
            }
        } else if is_loop {
            if chars_contain(line.as_slice(), for_kw.as_slice()) || chars_contain(line.as_slice(), range_kw.as_slice()) {
                line_count == target_line || target_line >= 1
            } else {
                true
            }
        } else {
            if chars_contain(line.as_slice(), if_kw.as_slice()) || chars_contain(line.as_slice(), for_kw.as_slice())
                || chars_contain(line.as_slice(), switch_kw.as_slice()) || chars_contain(line.as_slice(), case_kw.as_slice()) {
                target_line >= 2
            } else {
                true
            }
        };
        assert(defined_here == d.1);
        ok = ok && (!in_target_function || defined_here);
        let enters = chars_contain(line.as_slice(), enter_a.as_slice()) || chars_contain(line.as_slice(), enter_b.as_slice());
        if enters {
            in_target_function = true;
            brace_count = 0;
        }
        if in_target_function {
            let opens = count_of(line.as_slice(), '{');
            let closes = count_of(line.as_slice(), '}');
            proof {
                lemma_count_le(ls[i as int], '{');
                lemma_count_le(ls[i as int], '}');
                lemma_total_len_mono(ls, (i + 1) as nat, ls.len());
                assert(total_len(ls, (i + 1) as nat) == total_len(ls, i as nat) + ls[i as int].len());
            }
            brace_count = brace_count + opens as i32;
            brace_count = brace_count - closes as i32;
            if brace_count <= 0 && chars_contain(line.as_slice(), close_kw.as_slice())
                && !chars_contain(line.as_slice(), open_kw.as_slice()) {
                in_target_function = false;
            }
        }
        proof {
            lemma_total_len_mono(ls, i as nat, (i + 1) as nat);
        }
        line_count += 1;
        i += 1;
    }
    ok
}

proof fn lemma_count_le(s: Seq<char>, c: char)
    ensures count_char(s, c) <= s.len(),
    decreases s.len(),
{
    if s.len() > 0 {
        lemma_count_le(s.drop_last(), c);
    }
}

proof fn lemma_state_ok_prefix(t: TrackTarget, lines: Seq<Seq<char>>, n: nat, m: nat)
    requires n <= m <= lines.len(), track_state(t, lines, m).3,
    ensures track_state(t, lines, n).3,
    decreases m - n,
{
    if n < m {
        lemma_state_ok_prefix(t, lines, (n + 1) as nat, m);
    }
}

/// The lengths of the first `n` lines added up.
pub open spec fn total_len(lines: Seq<Seq<char>>, n: nat) -> nat
    decreases n,
{
    if n == 0 || n > lines.len() { 0 } else { total_len(lines, (n - 1) as nat) + lines[n - 1].len() }
}

proof fn lemma_total_len_mono(lines: Seq<Seq<char>>, n: nat, m: nat)
    requires n <= m <= lines.len(),
    ensures total_len(lines, n) <= total_len(lines, m),
    decreases m - n,
{
    if n < m {
        lemma_total_len_mono(lines, n, (m - 1) as nat);
    }
}

proof fn lemma_total_len_push(lines: Seq<Seq<char>>, x: Seq<char>, n: nat)
    requires n <= lines.len(),
    ensures total_len(lines.push(x), n) == total_len(lines, n),
    decreases n,
{
    if n > 0 {
        lemma_total_len_push(lines, x, (n - 1) as nat);
        assert(lines.push(x)[n - 1] == lines[n - 1]);
    }
}

proof fn lemma_split_state_size(s: Seq<char>)
    ensures ({
        let (done, cur) = split_state(s);
        total_len(done, done.len()) + done.len() + cur.len() <= s.len()
    }),
    decreases s.len(),
{
    if s.len() > 0 {
        lemma_split_state_size(s.drop_last());
        let (done, cur) = split_state(s.drop_last());
        if s.last() == '\n' {
            lemma_total_len_push(done, strip_cr(cur), done.len());
            let d2 = done.push(strip_cr(cur));
            assert(d2[d2.len() - 1] == strip_cr(cur));
            assert(total_len(d2, d2.len()) == total_len(d2, done.len()) + strip_cr(cur).len());
        }
    }
}

proof fn lemma_lines_size(s: Seq<char>)
    ensures
        total_len(split_lines(s), split_lines(s).len()) + split_lines(s).len() <= s.len() + 1,
        split_lines(s).len() <= s.len(),
{
    lemma_split_state_size(s);
    let (done, cur) = split_state(s);
    if cur.len() > 0 {
        lemma_total_len_push(done, cur, done.len());
        let d2 = done.push(cur);
        assert(d2[d2.len() - 1] == cur);
        assert(total_len(d2, d2.len()) == total_len(d2, done.len()) + cur.len());
    }
}

} // verus!

verus! {

/// `s` with each occurrence of `from` (from the left, not overlapping)
/// replaced by `to` (`str::replace` with a non-empty pattern).
pub open spec fn replace_all(s: Seq<char>, from: Seq<char>, to: Seq<char>) -> Seq<char>
    recommends from.len() > 0,
    decreases s.len(),
{
    if s.len() == 0 || from.len() == 0 {
        s
    } else if seq_starts_with(s, from) {
        to + replace_all(s.subrange(from.len() as int, s.len() as int), from, to)
    } else {
        seq![s[0]] + replace_all(s.drop_first(), from, to)
    }
}

/// `s` with each occurrence of `from` replaced by `to`.
pub fn replaced(s: &[char], from: &[char], to: &[char]) -> (r: Vec<char>)
    requires from@.len() > 0,
    ensures r@ == replace_all(s@, from@, to@),
{
    let n = s.len();
    let mut out: Vec<char> = Vec::new();
    let mut i: usize = 0;
    assert(s@.subrange(0, n as int) =~= s@);
    while i < n
        invariant
            n == s@.len(),
            i <= n,
            from@.len() > 0,
            replace_all(s@, from@, to@) == out@ + replace_all(s@.subrange(i as int, n as int), from@, to@),
        decreases n - i,
    {
        let ghost rest = s@.subrange(i as int, n as int);
        let at = crate::strs::chars_occur_at(s, from, i);
        if at {
            assert(seq_starts_with(rest, from@)) by {
                assert(rest.subrange(0, from@.len() as int) =~= s@.subrange(i as int, i + from@.len()));
            };
            assert(rest.subrange(from@.len() as int, rest.len() as int) =~= s@.subrange(i + from@.len(), n as int));
            let mut k: usize = 0;
            let ghost base = out@;
            while k < to.len()
                invariant
                    k <= to@.len(),
                    out@ == base + to@.subrange(0, k as int),
                decreases to@.len() - k,
            {
                out.push(to[k]);
                assert(out@ =~= base + to@.subrange(0, k + 1));
                k += 1;
            }
            assert(to@.subrange(0, k as int) =~= to@);
            assert(replace_all(s@, from@, to@) =~= out@ + replace_all(s@.subrange(i + from@.len(), n as int), from@, to@));
            i += from.len();
        } else {
            assert(!seq_starts_with(rest, from@)) by {
                if seq_starts_with(rest, from@) {
                    assert(s@.subrange(i as int, i + from@.len()) =~= rest.subrange(0, from@.len() as int));
                }
            };
            assert(rest.drop_first() =~= s@.subrange(i + 1, n as int));
            out.push(s[i]);
            assert(replace_all(s@, from@, to@) =~= out@ + replace_all(s@.subrange(i + 1, n as int), from@, to@));
            i += 1;
        }
    }
    assert(out@ =~= out@ + replace_all(s@.subrange(n as int, n as int), from@, to@));
    out
}

} // verus!

verus! {

/// The pieces of `s` between `:` characters (`str::split(':')`).
pub open spec fn colon_state(s: Seq<char>) -> (Seq<Seq<char>>, Seq<char>)
    decreases s.len(),
{
    if s.len() == 0 {
        (Seq::empty(), Seq::empty())
    } else {
        let (done, cur) = colon_state(s.drop_last());
        if s.last() == ':' { (done.push(cur), Seq::empty()) } else { (done, cur.push(s.last())) }
    }
}

/// The pieces of `s` between `:` characters; there is always one more
/// piece than there are `:`.
pub open spec fn colon_pieces(s: Seq<char>) -> Seq<Seq<char>> {
    colon_state(s).0.push(colon_state(s).1)
}

fn split_colons(s: &[char]) -> (r: Vec<Vec<char>>)
    ensures r@.map_values(|p: Vec<char>| p@) == colon_pieces(s@),
{
    let mut done: Vec<Vec<char>> = Vec::new();
    let mut cur: Vec<char> = Vec::new();
    let mut i: usize = 0;
    while i < s.len()
        invariant
            i <= s@.len(),
            (done@.map_values(|p: Vec<char>| p@), cur@) == colon_state(s@.subrange(0, i as int)),
        decreases s@.len() - i,
    {
        proof { assert(s@.subrange(0, i + 1).drop_last() =~= s@.subrange(0, i as int)); }
        let ghost d0 = done@.map_values(|p: Vec<char>| p@);
        if s[i] == ':' {
            done.push(cur);
            cur = Vec::new();
            assert(done@.map_values(|p: Vec<char>| p@) =~= d0.push(colon_state(s@.subrange(0, i as int)).1));
        } else {
            cur.push(s[i]);
            assert(done@.map_values(|p: Vec<char>| p@) =~= d0);
        }
        i += 1;
    }
    assert(s@.subrange(0, s@.len() as int) =~= s@);
    let ghost d0 = done@.map_values(|p: Vec<char>| p@);
    done.push(cur);
    assert(done@.map_values(|p: Vec<char>| p@) =~= d0.push(colon_state(s@).1));
    done
}

/// The value of a text of decimal digits.
pub open spec fn digits_value(d: Seq<char>) -> nat
    decreases d.len(),
{
    if d.len() == 0 { 0 } else { digits_value(d.drop_last()) * 10 + (d.last() as nat - '0' as nat) as nat }
}

/// The text without one leading `+`.
pub open spec fn unsigned_digits(s: Seq<char>) -> Seq<char> {
    if s.len() > 0 && s[0] == '+' { s.drop_first() } else { s }
}

/// Every character is a decimal digit.
pub open spec fn all_digits(d: Seq<char>) -> bool {
    forall|i: int| 0 <= i < d.len() ==> '0' <= #[trigger] d[i] <= '9'
}

/// The number a text spells for `usize::from_str`: an optional `+`, then
/// one or more decimal digits, with a value that fits.
pub open spec fn parse_usize_text(s: Seq<char>) -> Option<nat> {
    let d = unsigned_digits(s);
    if d.len() > 0 && all_digits(d) && digits_value(d) <= usize::MAX {
        Some(digits_value(d))
    } else {
        None
    }
}

proof fn lemma_digits_value_mono(d: Seq<char>, i: int)
    requires 0 <= i <= d.len(), all_digits(d),
    ensures digits_value(d.subrange(0, i)) <= digits_value(d),
    decreases d.len() - i,
{
    if i < d.len() {
        lemma_digits_value_mono(d, i + 1);
        assert(d.subrange(0, i + 1).drop_last() =~= d.subrange(0, i));
    } else {
        assert(d.subrange(0, i) =~= d);
    }
}

/// The number a text spells (see `parse_usize_text`), or 0 when it spells
/// none.
pub fn parse_usize_or_zero(s: &[char]) -> (r: usize)
    ensures r == match parse_usize_text(s@) { Some(v) => v, None => 0 },
{
    let start: usize = if s.len() > 0 && s[0] == '+' { 1 } else { 0 };
    let ghost d = unsigned_digits(s@);
    assert(d =~= s@.subrange(start as int, s@.len() as int));
    if start == s.len() {
        return 0;
    }
    let mut v: usize = 0;
    let mut i: usize = start;
    while i < s.len()
        invariant
            start <= i <= s@.len(),
            start == (if s@.len() > 0 && s@[0] == '+' { 1int } else { 0int }),
            d == unsigned_digits(s@),
            d == s@.subrange(start as int, s@.len() as int),
            forall|k: int| start <= k < i ==> '0' <= #[trigger] s@[k] <= '9',
            v == digits_value(s@.subrange(start as int, i as int)),
        decreases s@.len() - i,
    {
        let c = s[i];
        if !('0' <= c && c <= '9') {
            assert(!all_digits(d)) by {
                assert(d[i - start] == c);
            };
            return 0;
        }
        proof { assert(s@.subrange(start as int, i + 1).drop_last() =~= s@.subrange(start as int, i as int)); }
        let digit = (c as u32 - '0' as u32) as usize;
        assert(digits_value(s@.subrange(start as int, i + 1)) == v * 10 + digit);
        match v.checked_mul(10) {
            Some(m) => {
                match m.checked_add(digit) {
                    Some(a) => { v = a; },
                    None => {
                        proof { lemma_overflow_is_none(s@, start as int, i as int); }
                        return 0;
                    },
                }
            },
            None => {
                proof { lemma_overflow_is_none(s@, start as int, i as int); }
                return 0;
            },
        }
        i += 1;
    }
    assert(s@.subrange(start as int, i as int) =~= d);
    assert(all_digits(d)) by {
        assert forall|k: int| 0 <= k < d.len() implies '0' <= #[trigger] d[k] <= '9' by {
            assert(d[k] == s@[start + k]);
        };
    };
    v
}

proof fn lemma_overflow_is_none(s: Seq<char>, start: int, i: int)
    requires
        0 <= start <= i < s.len(),
        start == (if s.len() > 0 && s[0] == '+' { 1int } else { 0int }),
        forall|k: int| start <= k <= i ==> '0' <= #[trigger] s[k] <= '9',
        digits_value(s.subrange(start, i + 1)) > usize::MAX,
    ensures parse_usize_text(s) is None,
{
    let d = unsigned_digits(s);
    assert(d =~= s.subrange(start, s.len() as int));
    if all_digits(d) {
        lemma_digits_value_mono(d, i + 1 - start);
        assert(d.subrange(0, i + 1 - start) =~= s.subrange(start, i + 1));
        assert(digits_value(d) > usize::MAX);
    }
}

} // verus!

verus! {

/// The recording of one branch on a text: its id `function:block:successor`
/// names the function and the successor (0 when the successor is not a
/// number); an id with fewer than three parts leaves the text as it is.
/// Gives the new text and whether the step is defined on the text.
pub open spec fn branch_step(content: Seq<char>, b: InstrumentedBranch) -> (Seq<char>, bool) {
    let parts = colon_pieces(b.branch_id@);
    if parts.len() >= 3 {
        let succ = match parse_usize_text(parts[2]) { Some(v) => v, None => 0 };
        let t = TrackTarget { func_name: parts[0], branch_type: b.branch_type@, target_line: b.line as int,
            succ_idx: succ as int, branch_id: b.branch_id@ };
        (tracked_text(t, content), content.len() <= i32::MAX && b.line + 10 <= usize::MAX && tracking_defined(t, content))
    } else {
        (content, true)
    }
}

/// The text after recording the first `n` branches, and whether every step
/// was defined.
pub open spec fn branches_applied(content: Seq<char>, branches: Seq<InstrumentedBranch>, n: nat) -> (Seq<char>, bool)
    decreases n,
{
    if n == 0 || n > branches.len() {
        (content, true)
    } else {
        let (c, ok) = branches_applied(content, branches, (n - 1) as nat);
        let (c2, ok2) = branch_step(c, branches[n - 1]);
        (c2, ok && ok2)
    }
}

proof fn lemma_applied_ok_prefix(content: Seq<char>, branches: Seq<InstrumentedBranch>, n: nat, m: nat)
    requires n <= m <= branches.len(), branches_applied(content, branches, m).1,
    ensures branches_applied(content, branches, n).1,
    decreases m - n,
{
    if n < m {
        lemma_applied_ok_prefix(content, branches, (n + 1) as nat, m);
    }
}

/// Records every branch of the instrumentation on the text, one after the
/// other (see `branch_step`).
pub fn add_simplified_branch_tracking(content: &str, instrumentation: &FunctionInstrumentation) -> (r: String)
    requires branches_applied(content@, instrumentation.branches@, instrumentation.branches@.len()).1,
    ensures r@ == branches_applied(content@, instrumentation.branches@, instrumentation.branches@.len()).0,
{
    let mut modified = String::from_str(content);
    let mut i: usize = 0;
    let ghost bs = instrumentation.branches@;
    while i < instrumentation.branches.len()
        invariant
            bs == instrumentation.branches@,
            i <= bs.len(),
            branches_applied(content@, bs, bs.len()).1,
            modified@ == branches_applied(content@, bs, i as nat).0,
        decreases bs.len() - i,
    {
        let branch = &instrumentation.branches[i];
        proof { lemma_applied_ok_prefix(content@, bs, (i + 1) as nat, bs.len()); }
        let id_chars = str_to_chars(branch.branch_id.as_str());
        let parts = split_colons(id_chars.as_slice());
        if parts.len() >= 3 {
            let func_name = string_from_chars(parts[0].as_slice());
            let succ_idx = parse_usize_or_zero(parts[2].as_slice());
            modified = add_branch_specific_tracking(modified.as_str(), func_name.as_str(), branch.branch_type.as_str(),
                branch.line, succ_idx, branch.branch_id.as_str());
        }
        i += 1;
    }
    modified
}

/// The instrumented text of a file: a text that already records branches
/// is left as it is; otherwise `fmt` is imported (into an `import (` list,
/// else after `package main`) unless it is, and each branch is recorded.
pub open spec fn instrumented_text(content: Seq<char>, branches: Seq<InstrumentedBranch>) -> (Seq<char>, bool) {
    if seq_contains(content, "BRANCH_COV:"@) {
        (content, true)
    } else {
        branches_applied(with_fmt_import(content), branches, branches.len())
    }
}

/// The text with `fmt` imported: unchanged when it already names `"fmt"`
/// or imports it; else `fmt` opens the `import (` list, or follows
/// `package main`.
pub open spec fn with_fmt_import(content: Seq<char>) -> Seq<char> {
    if seq_contains(content, "\"fmt\""@) {
        content
    } else if seq_contains(content, "import ("@) {
        replace_all(content, "import ("@, "import (\n\t\"fmt\""@)
    } else if seq_contains(content, "import \"fmt\""@) {
        content
    } else {
        replace_all(content, "package main"@, "package main\n\nimport \"fmt\""@)
    }
}

fn import_fmt(content: &str) -> (r: String)
    ensures r@ == with_fmt_import(content@),
{
    let cs = str_to_chars(content);
    let fmt_q = str_to_chars("\"fmt\"");
    let import_list = str_to_chars("import (");
    let import_fmt = str_to_chars("import \"fmt\"");
    let package_main = str_to_chars("package main");
    proof {
        reveal_strlit("import (");
        reveal_strlit("package main");
    }
    let with_fmt: Vec<char> = if chars_contain(cs.as_slice(), fmt_q.as_slice()) {
        cs
    } else if chars_contain(cs.as_slice(), import_list.as_slice()) {
        let to = str_to_chars("import (\n\t\"fmt\"");
        replaced(cs.as_slice(), import_list.as_slice(), to.as_slice())
    } else if chars_contain(cs.as_slice(), import_fmt.as_slice()) {
        cs
    } else {
        let to = str_to_chars("package main\n\nimport \"fmt\"");
        replaced(cs.as_slice(), package_main.as_slice(), to.as_slice())
    };
    string_from_chars(with_fmt.as_slice())
}

/// The text of a file with its branches recorded (see
/// `instrumented_text`).
pub fn add_instrumentation_to_file(content: &str, instrumentation: &FunctionInstrumentation) -> (r: String)
    requires instrumented_text(content@, instrumentation.branches@).1,
    ensures r@ == instrumented_text(content@, instrumentation.branches@).0,
{
    let cs = str_to_chars(content);
    let marker = str_to_chars("BRANCH_COV:");
    if chars_contain(cs.as_slice(), marker.as_slice()) {
        return String::from_str(content);
    }
    let text = import_fmt(content);
    add_simplified_branch_tracking(text.as_str(), instrumentation)
}

/// The decisions on a text do not depend on the id that is recorded.
proof fn lemma_state_ignores_id(t: TrackTarget, u: TrackTarget, lines: Seq<Seq<char>>, n: nat)
    requires
        t.func_name == u.func_name,
        t.branch_type == u.branch_type,
        t.target_line == u.target_line,
        t.succ_idx == u.succ_idx,
    ensures
        track_state(t, lines, n).1 == track_state(u, lines, n).1,
        track_state(t, lines, n).2 == track_state(u, lines, n).2,
        track_state(t, lines, n).3 == track_state(u, lines, n).3,
    decreases n,
{
    if n > 0 && n <= lines.len() {
        lemma_state_ignores_id(t, u, lines, (n - 1) as nat);
    }
}

/// Records every branch of the instrumentation on the text, as
/// `add_simplified_branch_tracking` does, where every step is defined;
/// `None` where one is not.
pub fn try_add_simplified_branch_tracking(content: &str, instrumentation: &FunctionInstrumentation) -> (r: Option<String>)
    ensures
        match r {
            Some(x) => branches_applied(content@, instrumentation.branches@, instrumentation.branches@.len()).1
                && x@ == branches_applied(content@, instrumentation.branches@, instrumentation.branches@.len()).0,
            None => !branches_applied(content@, instrumentation.branches@, instrumentation.branches@.len()).1,
        },
{
    let mut modified = String::from_str(content);
    let mut i: usize = 0;
    let ghost bs = instrumentation.branches@;
    while i < instrumentation.branches.len()
        invariant
            bs == instrumentation.branches@,
            i <= bs.len(),
            branches_applied(content@, bs, i as nat).1,
            modified@ == branches_applied(content@, bs, i as nat).0,
        decreases bs.len() - i,
    {
        let branch = &instrumentation.branches[i];
        let id_chars = str_to_chars(branch.branch_id.as_str());
        let parts = split_colons(id_chars.as_slice());
        if parts.len() >= 3 {
            let func_name = string_from_chars(parts[0].as_slice());
            let succ_idx = parse_usize_or_zero(parts[2].as_slice());
            let len_ok = modified.as_str().unicode_len() <= 2147483647usize;
            let line_ok = branch.line <= usize::MAX - 10;
            let defined = len_ok && line_ok && tracking_is_defined(modified.as_str(), func_name.as_str(),
                branch.branch_type.as_str(), branch.line, succ_idx);
            let ghost t = TrackTarget { func_name: func_name@, branch_type: branch.branch_type@,
                target_line: branch.line as int, succ_idx: succ_idx as int, branch_id: branch.branch_id@ };
            let ghost u = TrackTarget { func_name: func_name@, branch_type: branch.branch_type@,
                target_line: branch.line as int, succ_idx: succ_idx as int, branch_id: Seq::empty() };
            proof {
                let ls = split_lines(modified@);
                lemma_state_ignores_id(t, u, ls, ls.len());
            }
            if !defined {
                proof {
                    assert(!branches_applied(content@, bs, (i + 1) as nat).1);
                    if branches_applied(content@, bs, bs.len()).1 {
                        lemma_applied_ok_prefix(content@, bs, (i + 1) as nat, bs.len());
                    }
                }
                return None;
            }
            modified = add_branch_specific_tracking(modified.as_str(), func_name.as_str(), branch.branch_type.as_str(),
                branch.line, succ_idx, branch.branch_id.as_str());
        }
        i += 1;
    }
    Some(modified)
}

/// The instrumented text of a file (see `instrumented_text`) where every
/// step is defined; `None` where one is not.
pub fn try_add_instrumentation_to_file(content: &str, instrumentation: &FunctionInstrumentation) -> (r: Option<String>)
    ensures
        match r {
            Some(x) => instrumented_text(content@, instrumentation.branches@).1
                && x@ == instrumented_text(content@, instrumentation.branches@).0,
            None => !instrumented_text(content@, instrumentation.branches@).1,
        },
{
    let cs = str_to_chars(content);
    let marker = str_to_chars("BRANCH_COV:");
    if chars_contain(cs.as_slice(), marker.as_slice()) {
        return Some(String::from_str(content));
    }
    let text = import_fmt(content);
    try_add_simplified_branch_tracking(text.as_str(), instrumentation)
}

} // verus!
