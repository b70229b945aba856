//! Pointing the planner's map server at a chosen map: a line-based rewrite
//! of the navigation parameter file.
use vstd::prelude::*;
use vstd::string::*;
use crate::text::{chars_of, has_prefix, indentation, leading_ws_len, range_has_prefix, skip_leading_ws, skip_trailing_ws, trimmed};

verus! {

/// A line without the carriage return that ended it, if it had one.
pub open spec fn strip_cr(line: Seq<char>) -> Seq<char> {
    if line.len() > 0 && line.last() == '\r' {
        line.drop_last()
    } else {
        line
    }
}

/// Scanning `s` from the left: the lines ended by a line feed so far, and the
/// characters of the line still open.
pub open spec fn split_state(s: Seq<char>) -> (Seq<Seq<char>>, Seq<char>)
    decreases s.len(),
{
    if s.len() == 0 {
        (seq![], seq![])
    } else {
        let (done, cur) = split_state(s.drop_last());
        if s.last() == '\n' {
            (done.push(strip_cr(cur)), seq![])
        } else {
            (done, cur.push(s.last()))
        }
    }
}

/// The lines of `s` as `str::lines` yields them: split at `\n` or `\r\n`,
/// terminators removed, no empty line after a final terminator.
pub open spec fn lines_of(s: Seq<char>) -> Seq<Seq<char>> {
    let (done, cur) = split_state(s);
    if cur.len() == 0 {
        done
    } else {
        done.push(cur)
    }
}

/// The lines joined with `\n` between them.
pub open spec fn join_lines(lines: Seq<Seq<char>>) -> Seq<char>
    decreases lines.len(),
{
    if lines.len() == 0 {
        seq![]
    } else if lines.len() == 1 {
        lines[0]
    } else {
        join_lines(lines.drop_last()) + seq!['\n'] + lines.last()
    }
}

/// Where the scan stands: inside the `map_server:` section, and inside its
/// `ros__parameters:` block.
pub struct ScanState {
    pub in_map_server: bool,
    pub in_ros_params: bool,
}

/// The path under which the planner container finds a map file.
pub open spec fn container_map_path(map_name: Seq<char>) -> Seq<char> {
    "/ros2_ws/src/navigation/maps/"@ + map_name
}

/// One line of the rewrite: the state after it and the line written out.
pub open spec fn rewrite_line(st: ScanState, line: Seq<char>, map_name: Seq<char>) -> (
    ScanState,
    Seq<char>,
) {
    let t = trimmed(line);
    if has_prefix(t, "map_server:"@) {
        (ScanState { in_map_server: true, in_ros_params: st.in_ros_params }, line)
    } else if st.in_map_server && has_prefix(t, "ros__parameters:"@) {
        (ScanState { in_map_server: true, in_ros_params: true }, line)
    } else if st.in_map_server && st.in_ros_params && has_prefix(t, "yaml_filename:"@) {
        (
            ScanState { in_map_server: false, in_ros_params: false },
            indentation(line) + "yaml_filename: \""@ + container_map_path(map_name) + "\""@,
        )
    } else if st.in_map_server && t.len() > 0 && !(line.len() > 0 && line[0] == ' ')
        && !has_prefix(t, "map_server:"@) {
        (ScanState { in_map_server: false, in_ros_params: false }, line)
    } else {
        (st, line)
    }
}

/// The rewrite of a sequence of lines, from the start state.
pub open spec fn rewrite_lines(lines: Seq<Seq<char>>, map_name: Seq<char>) -> (
    ScanState,
    Seq<Seq<char>>,
)
    decreases lines.len(),
{
    if lines.len() == 0 {
        (ScanState { in_map_server: false, in_ros_params: false }, seq![])
    } else {
        let (st, outs) = rewrite_lines(lines.drop_last(), map_name);
        let (st2, out) = rewrite_line(st, lines.last(), map_name);
        (st2, outs.push(out))
    }
}

/// The parameter file `content` with the map server's `yaml_filename` set to
/// `map_name` inside the container's map folder, lines joined by `\n`.
pub open spec fn rewritten_config(content: Seq<char>, map_name: Seq<char>) -> Seq<char> {
    join_lines(rewrite_lines(lines_of(content), map_name).1)
}

proof fn lemma_split_state_len(s: Seq<char>)
    ensures
        split_state(s).0.len() <= s.len(),
    decreases s.len(),
{
    if s.len() > 0 {
        lemma_split_state_len(s.drop_last());
    }
}

proof fn lemma_join_push(lines: Seq<Seq<char>>, l: Seq<char>)
    ensures
        join_lines(lines.push(l)) == if lines.len() == 0 {
            l
        } else {
            join_lines(lines) + seq!['\n'] + l
        },
{
    assert(lines.push(l).drop_last() =~= lines);
    if lines.len() == 0 {
        assert(lines.push(l)[0] == l);
    }
}

/// The rewrite keeps the number of lines, and changes no line but one whose
/// trimmed text starts with `yaml_filename:`.
pub proof fn law_rewrite_changes_only_filename_lines(lines: Seq<Seq<char>>, map_name: Seq<char>)
    ensures
        rewrite_lines(lines, map_name).1.len() == lines.len(),
        forall|i: int|
            0 <= i < lines.len() ==> #[trigger] rewrite_lines(lines, map_name).1[i] == lines[i]
                || has_prefix(trimmed(lines[i]), "yaml_filename:"@),
    decreases lines.len(),
{
    if lines.len() > 0 {
        law_rewrite_changes_only_filename_lines(lines.drop_last(), map_name);
        let outs = rewrite_lines(lines, map_name).1;
        assert forall|i: int| 0 <= i < lines.len() implies #[trigger] outs[i] == lines[i]
            || has_prefix(trimmed(lines[i]), "yaml_filename:"@) by {
            if i < lines.len() - 1 {
                assert(lines.drop_last()[i] == lines[i]);
            }
        }
    }
}

/// A file with no `map_server:` section is written back line for line
/// unchanged.
pub proof fn law_rewrite_without_map_server_is_identity(
    lines: Seq<Seq<char>>,
    map_name: Seq<char>,
)
    requires
        forall|i: int| 0 <= i < lines.len() ==> !has_prefix(trimmed(#[trigger] lines[i]), "map_server:"@),
    ensures
        rewrite_lines(lines, map_name).1 == lines,
        !rewrite_lines(lines, map_name).0.in_map_server,
        !rewrite_lines(lines, map_name).0.in_ros_params,
    decreases lines.len(),
{
    if lines.len() > 0 {
        assert forall|i: int| 0 <= i < lines.drop_last().len() implies !has_prefix(
            trimmed(#[trigger] lines.drop_last()[i]),
            "map_server:"@,
        ) by {
            assert(lines.drop_last()[i] == lines[i]);
        }
        law_rewrite_without_map_server_is_identity(lines.drop_last(), map_name);
        assert(!has_prefix(trimmed(lines[lines.len() - 1]), "map_server:"@));
        assert(rewrite_lines(lines, map_name).1 =~= lines.drop_last().push(lines.last()));
        assert(lines.drop_last().push(lines.last()) =~= lines);
    }
}

proof fn lemma_first_char_of_prefix(t: Seq<char>, p: Seq<char>)
    requires
        has_prefix(t, p),
        p.len() > 0,
    ensures
        t[0] == p[0],
{
    assert(t.take(p.len() as int)[0] == t[0]);
}

proof fn lemma_distinct_prefixes(params: Seq<char>, file_line: Seq<char>)
    requires
        has_prefix(params, "ros__parameters:"@),
        has_prefix(file_line, "yaml_filename:"@),
    ensures
        !has_prefix(params, "map_server:"@),
        !has_prefix(file_line, "map_server:"@),
        !has_prefix(file_line, "ros__parameters:"@),
{
    reveal_strlit("map_server:");
    reveal_strlit("ros__parameters:");
    reveal_strlit("yaml_filename:");
    lemma_first_char_of_prefix(params, "ros__parameters:"@);
    lemma_first_char_of_prefix(file_line, "yaml_filename:"@);
    if has_prefix(params, "map_server:"@) {
        lemma_first_char_of_prefix(params, "map_server:"@);
    }
    if has_prefix(file_line, "map_server:"@) {
        lemma_first_char_of_prefix(file_line, "map_server:"@);
    }
    if has_prefix(file_line, "ros__parameters:"@) {
        lemma_first_char_of_prefix(file_line, "ros__parameters:"@);
    }
}

proof fn lemma_split_state_no_cr(s: Seq<char>)
    requires
        forall|i: int| 0 <= i < s.len() ==> s[i] != '\r',
    ensures
        ({
            let (done, cur) = split_state(s);
            &&& done.len() == 0 ==> s == cur
            &&& done.len() > 0 ==> s == join_lines(done) + seq!['\n'] + cur
            &&& forall|j: int| 0 <= j < cur.len() ==> cur[j] != '\n'
            &&& forall|i: int, j: int|
                0 <= i < done.len() && 0 <= j < done[i].len() ==> #[trigger] done[i][j] != '\n'
        }),
    decreases s.len(),
{
    if s.len() > 0 {
        let s0 = s.drop_last();
        assert forall|i: int| 0 <= i < s0.len() implies s0[i] != '\r' by {
            assert(s0[i] == s[i]);
        }
        lemma_split_state_no_cr(s0);
        let (d0, c0) = split_state(s0);
        let c = s.last();
        assert(s =~= s0.push(c));
        if c == '\n' {
            if c0.len() > 0 {
                assert(c0.last() == s0[s0.len() - 1]) by {
                    if d0.len() == 0 {
                    } else {
                        assert(s0 == join_lines(d0) + seq!['\n'] + c0);
                    }
                }
            }
            assert(strip_cr(c0) == c0);
            let d = d0.push(c0);
            assert(d.drop_last() =~= d0);
            assert(d.last() == c0);
            if d0.len() == 0 {
                assert(d[0] == c0);
                assert(s =~= join_lines(d) + seq!['\n'] + Seq::<char>::empty());
            } else {
                assert(s =~= join_lines(d) + seq!['\n'] + Seq::<char>::empty());
            }
            assert forall|i: int, j: int| 0 <= i < d.len() && 0 <= j < d[i].len() implies #[trigger] d[i][j]
                != '\n' by {
                if i < d0.len() {
                    assert(d[i] == d0[i]);
                }
            }
        } else {
            let cur = c0.push(c);
            if d0.len() == 0 {
                assert(s =~= cur);
            } else {
                assert(s =~= join_lines(d0) + seq!['\n'] + cur);
            }
            assert forall|j: int| 0 <= j < cur.len() implies cur[j] != '\n' by {
                if j < c0.len() {
                    assert(cur[j] == c0[j]);
                }
            }
        }
    }
}

/// Splitting a text into lines and joining them with `\n` gives the text back
/// when it holds no carriage return and does not end with a line feed; no
/// line holds a line feed.
pub proof fn law_lines_join_back(s: Seq<char>)
    requires
        forall|i: int| 0 <= i < s.len() ==> s[i] != '\r',
        s.len() == 0 || s.last() != '\n',
    ensures
        join_lines(lines_of(s)) == s,
        forall|i: int, j: int|
            0 <= i < lines_of(s).len() && 0 <= j < lines_of(s)[i].len() ==> #[trigger] lines_of(
                s,
            )[i][j] != '\n',
{
    lemma_split_state_no_cr(s);
    let (done, cur) = split_state(s);
    if cur.len() == 0 {
        if done.len() > 0 {
            assert(s == join_lines(done) + seq!['\n'] + cur);
            assert(s.last() == '\n');
        }
    } else {
        let l = done.push(cur);
        assert(l.drop_last() =~= done);
        assert(l.last() == cur);
        if done.len() == 0 {
            assert(l[0] == cur);
        }
        assert forall|i: int, j: int| 0 <= i < l.len() && 0 <= j < l[i].len() implies #[trigger] l[i][j]
            != '\n' by {
            if i < done.len() {
                assert(l[i] == done[i]);
            }
        }
    }
}

proof fn lemma_split_state_single(s: Seq<char>)
    requires
        forall|i: int| 0 <= i < s.len() ==> s[i] != '\n',
    ensures
        split_state(s) == (Seq::<Seq<char>>::empty(), s),
    decreases s.len(),
{
    if s.len() > 0 {
        let s0 = s.drop_last();
        assert forall|i: int| 0 <= i < s0.len() implies s0[i] != '\n' by {
            assert(s0[i] == s[i]);
        }
        lemma_split_state_single(s0);
        assert(s0.push(s.last()) =~= s);
    }
}

/// A line ended by `\r\n` loses both characters, one ended by `\n` loses the
/// line feed, and a carriage return at the very end without a line feed stays.
pub proof fn law_line_endings(s: Seq<char>)
    requires
        forall|i: int| 0 <= i < s.len() ==> s[i] != '\n',
    ensures
        lines_of(s.push('\r').push('\n')) == seq![s],
        s.len() == 0 || s.last() != '\r' ==> lines_of(s.push('\n')) == seq![s],
        lines_of(s.push('\r')) == seq![s.push('\r')],
{
    lemma_split_state_single(s);
    let r = s.push('\r');
    assert forall|i: int| 0 <= i < r.len() implies r[i] != '\n' by {
        if i < s.len() {
            assert(r[i] == s[i]);
        }
    }
    lemma_split_state_single(r);
    assert(r.push('\n').drop_last() =~= r);
    assert(r.drop_last() =~= s);
    assert(s.push('\n').drop_last() =~= s);
}

proof fn lemma_filename_key_not_others(file_line: Seq<char>)
    requires
        has_prefix(file_line, "yaml_filename:"@),
    ensures
        !has_prefix(file_line, "map_server:"@),
        !has_prefix(file_line, "ros__parameters:"@),
{
    reveal_strlit("map_server:");
    reveal_strlit("ros__parameters:");
    reveal_strlit("yaml_filename:");
    lemma_first_char_of_prefix(file_line, "yaml_filename:"@);
    if has_prefix(file_line, "map_server:"@) {
        lemma_first_char_of_prefix(file_line, "map_server:"@);
    }
    if has_prefix(file_line, "ros__parameters:"@) {
        lemma_first_char_of_prefix(file_line, "ros__parameters:"@);
    }
}

/// A `yaml_filename:` line directly in the `map_server:` section, outside a
/// `ros__parameters:` block, is not touched.
pub proof fn law_filename_outside_params_kept(
    before: Seq<Seq<char>>,
    section: Seq<char>,
    file_line: Seq<char>,
    map_name: Seq<char>,
)
    requires
        forall|i: int| 0 <= i < before.len() ==> !has_prefix(trimmed(#[trigger] before[i]), "map_server:"@),
        has_prefix(trimmed(section), "map_server:"@),
        has_prefix(trimmed(file_line), "yaml_filename:"@),
    ensures
        rewrite_lines(before + seq![section, file_line], map_name).1 == before + seq![section, file_line],
{
    lemma_filename_key_not_others(trimmed(file_line));
    law_rewrite_without_map_server_is_identity(before, map_name);
    let l1 = before.push(section);
    let l2 = l1.push(file_line);
    assert(l1.drop_last() =~= before);
    assert(l2.drop_last() =~= l1);
    assert(l1.last() == section && l2.last() == file_line);
    assert(rewrite_lines(l1, map_name).0 == ScanState { in_map_server: true, in_ros_params: false });
    assert(rewrite_lines(l1, map_name).1 == l1);
    assert(before + seq![section, file_line] =~= l2);
    assert(rewrite_lines(l2, map_name).1 =~= l2);
}

/// A non-empty line that does not start with a space (and is not another
/// `map_server:` line) ends the section: a `yaml_filename:` line after it is
/// not touched.
pub proof fn law_unindented_line_closes_section(
    before: Seq<Seq<char>>,
    section: Seq<char>,
    params: Seq<char>,
    other: Seq<char>,
    file_line: Seq<char>,
    map_name: Seq<char>,
)
    requires
        forall|i: int| 0 <= i < before.len() ==> !has_prefix(trimmed(#[trigger] before[i]), "map_server:"@),
        has_prefix(trimmed(section), "map_server:"@),
        has_prefix(trimmed(params), "ros__parameters:"@),
        other.len() > 0,
        other[0] != ' ',
        trimmed(other).len() > 0,
        !has_prefix(trimmed(other), "map_server:"@),
        !has_prefix(trimmed(other), "ros__parameters:"@),
        !has_prefix(trimmed(other), "yaml_filename:"@),
        has_prefix(trimmed(file_line), "yaml_filename:"@),
    ensures
        rewrite_lines(before + seq![section, params, other, file_line], map_name).1 == before
            + seq![section, params, other, file_line],
{
    lemma_distinct_prefixes(trimmed(params), trimmed(file_line));
    law_rewrite_without_map_server_is_identity(before, map_name);
    let l1 = before.push(section);
    let l2 = l1.push(params);
    let l3 = l2.push(other);
    let l4 = l3.push(file_line);
    assert(l1.drop_last() =~= before);
    assert(l2.drop_last() =~= l1);
    assert(l3.drop_last() =~= l2);
    assert(l4.drop_last() =~= l3);
    assert(l1.last() == section && l2.last() == params && l3.last() == other && l4.last()
        == file_line);
    assert(rewrite_lines(l1, map_name).0 == ScanState { in_map_server: true, in_ros_params: false });
    assert(rewrite_lines(l1, map_name).1 == l1);
    assert(rewrite_lines(l2, map_name).0 == ScanState { in_map_server: true, in_ros_params: true });
    assert(rewrite_lines(l2, map_name).1 == l2);
    assert(rewrite_lines(l3, map_name).0 == ScanState { in_map_server: false, in_ros_params: false });
    assert(rewrite_lines(l3, map_name).1 == l3);
    assert(before + seq![section, params, other, file_line] =~= l4);
    assert(rewrite_lines(l4, map_name).1 =~= l4);
}

/// A line that keeps the map-server block open: indented by a space and
/// holding none of the three keys the rewrite looks for.
pub open spec fn is_inner_block_line(line: Seq<char>) -> bool {
    &&& line.len() > 0
    &&& line[0] == ' '
    &&& !has_prefix(trimmed(line), "map_server:"@)
    &&& !has_prefix(trimmed(line), "ros__parameters:"@)
    &&& !has_prefix(trimmed(line), "yaml_filename:"@)
}

proof fn lemma_inner_lines_keep_block(
    base: Seq<Seq<char>>,
    middle: Seq<Seq<char>>,
    map_name: Seq<char>,
)
    requires
        rewrite_lines(base, map_name).0 == (ScanState { in_map_server: true, in_ros_params: true }),
        forall|i: int| 0 <= i < middle.len() ==> is_inner_block_line(#[trigger] middle[i]),
    ensures
        rewrite_lines(base + middle, map_name).0 == (ScanState {
            in_map_server: true,
            in_ros_params: true,
        }),
        rewrite_lines(base + middle, map_name).1 == rewrite_lines(base, map_name).1 + middle,
    decreases middle.len(),
{
    if middle.len() == 0 {
        assert(base + middle =~= base);
        assert(rewrite_lines(base, map_name).1 + middle =~= rewrite_lines(base, map_name).1);
    } else {
        let m0 = middle.drop_last();
        assert forall|i: int| 0 <= i < m0.len() implies is_inner_block_line(#[trigger] m0[i]) by {
            assert(m0[i] == middle[i]);
        }
        lemma_inner_lines_keep_block(base, m0, map_name);
        let l = middle.last();
        assert(is_inner_block_line(middle[middle.len() - 1]));
        assert((base + middle).drop_last() =~= base + m0);
        assert((base + middle).last() == l);
        assert(rewrite_lines(base, map_name).1 + m0 + seq![l] =~= rewrite_lines(base, map_name).1
            + middle);
        assert((rewrite_lines(base, map_name).1 + m0).push(l) =~= rewrite_lines(base, map_name).1
            + middle);
    }
}

/// In a file whose first `map_server:` section opens with a
/// `ros__parameters:` line, followed by any number of indented lines (such as
/// comments or other parameters) and then a `yaml_filename:` line, that line
/// is pointed at `/ros2_ws/src/navigation/maps/<map_name>`, keeping its
/// indentation; every other line is kept.
pub proof fn law_rewrite_points_map_server_at_map(
    before: Seq<Seq<char>>,
    section: Seq<char>,
    params: Seq<char>,
    middle: Seq<Seq<char>>,
    file_line: Seq<char>,
    map_name: Seq<char>,
)
    requires
        forall|i: int| 0 <= i < before.len() ==> !has_prefix(trimmed(#[trigger] before[i]), "map_server:"@),
        has_prefix(trimmed(section), "map_server:"@),
        has_prefix(trimmed(params), "ros__parameters:"@),
        forall|i: int| 0 <= i < middle.len() ==> is_inner_block_line(#[trigger] middle[i]),
        has_prefix(trimmed(file_line), "yaml_filename:"@),
    ensures
        rewrite_lines(before + seq![section, params] + middle + seq![file_line], map_name).1
            == before + seq![section, params] + middle + seq![
            indentation(file_line) + "yaml_filename: \""@ + "/ros2_ws/src/navigation/maps/"@
                + map_name + "\""@,
        ],
{
    lemma_distinct_prefixes(trimmed(params), trimmed(file_line));
    law_rewrite_without_map_server_is_identity(before, map_name);
    let l1 = before.push(section);
    let l2 = l1.push(params);
    assert(l1.drop_last() =~= before);
    assert(l2.drop_last() =~= l1);
    assert(l1.last() == section && l2.last() == params);
    let r1 = rewrite_lines(l1, map_name);
    assert(r1.0 == ScanState { in_map_server: true, in_ros_params: false });
    assert(r1.1 == before.push(section));
    let r2 = rewrite_lines(l2, map_name);
    assert(r2.0 == ScanState { in_map_server: true, in_ros_params: true });
    assert(r2.1 == l2);
    lemma_inner_lines_keep_block(l2, middle, map_name);
    let l3 = (l2 + middle).push(file_line);
    assert(l3.drop_last() =~= l2 + middle);
    assert(l3.last() == file_line);
    assert(before + seq![section, params] + middle + seq![file_line] =~= l3);
    assert(container_map_path(map_name) == "/ros2_ws/src/navigation/maps/"@ + map_name);
    let out = indentation(file_line) + "yaml_filename: \""@ + "/ros2_ws/src/navigation/maps/"@
        + map_name + "\""@;
    let out2 = indentation(file_line) + "yaml_filename: \""@ + container_map_path(map_name)
        + "\""@;
    assert(out2 =~= out);
    assert(rewrite_lines(l3, map_name).1 =~= (l2 + middle).push(out));
    assert((l2 + middle).push(out) =~= before + seq![section, params] + middle + seq![out]);
}

/// Rewrites one line `v[lo..hi]` onto `out`.
fn rewrite_one_line(
    content: &str,
    v: &Vec<char>,
    lo: usize,
    hi: usize,
    st: ScanState,
    map_name: &str,
    out: &mut String,
) -> (st2: ScanState)
    requires
        v@ == content@,
        lo <= hi <= v@.len(),
    ensures
        ({
            let (s2, o) = rewrite_line(st, v@.subrange(lo as int, hi as int), map_name@);
            &&& st2 == s2
            &&& final(out)@ == old(out)@ + o
        }),
{
    let ghost line = v@.subrange(lo as int, hi as int);
    let a = skip_leading_ws(v, lo, hi);
    let b = skip_trailing_ws(v, a, hi);
    proof {
        let t = line.skip(leading_ws_len(line) as int);
        assert(t =~= v@.subrange(a as int, hi as int));
        assert(trimmed(line) =~= v@.subrange(a as int, b as int));
        assert(indentation(line) =~= v@.subrange(lo as int, a as int));
    }
    let map_pat = chars_of("map_server:");
    let ros_pat = chars_of("ros__parameters:");
    let file_pat = chars_of("yaml_filename:");
    let text = content.substring_char(lo, hi);
    if range_has_prefix(v, a, b, &map_pat) {
        out.append(text);
        ScanState { in_map_server: true, in_ros_params: st.in_ros_params }
    } else if st.in_map_server && range_has_prefix(v, a, b, &ros_pat) {
        out.append(text);
        ScanState { in_map_server: true, in_ros_params: true }
    } else if st.in_map_server && st.in_ros_params && range_has_prefix(v, a, b, &file_pat) {
        let indent = content.substring_char(lo, a);
        out.append(indent);
        out.append("yaml_filename: \"");
        out.append("/ros2_ws/src/navigation/maps/");
        out.append(map_name);
        out.append("\"");
        ScanState { in_map_server: false, in_ros_params: false }
    } else {
        out.append(text);
        if st.in_map_server && a < b && !(lo < hi && v[lo] == ' ') {
            ScanState { in_map_server: false, in_ros_params: false }
        } else {
            st
        }
    }
}

/// Rewrites the navigation parameter file `content` so that the map server
/// loads `map_name` from the container's map folder.
///
/// Inside the `map_server:` section's `ros__parameters:` block, the first
/// `yaml_filename:` line is replaced by one with the same indentation whose
/// value is `"/ros2_ws/src/navigation/maps/<map_name>"`. A non-empty line that
/// does not start with a space closes the section. All other lines are kept.
/// The lines are written back joined with `\n`.
pub fn rewrite_map_config(content: &str, map_name: &str) -> (res: String)
    ensures
        res@ == rewritten_config(content@, map_name@),
{
    let v = chars_of(content);
    let n = v.len();
    let mut out = String::new();
    let mut st = ScanState { in_map_server: false, in_ros_params: false };
    let mut start: usize = 0;
    let mut count: usize = 0;
    let mut i: usize = 0;
    while i < n
        invariant
            v@ == content@,
            n == v@.len(),
            start <= i <= n,
            ({
                let (done, cur) = split_state(v@.take(i as int));
                let (s, outs) = rewrite_lines(done, map_name@);
                &&& cur == v@.subrange(start as int, i as int)
                &&& s == st
                &&& out@ == join_lines(outs)
                &&& outs.len() == done.len()
                &&& count == done.len()
            }),
        decreases n - i,
    {
        let ghost pre = v@.take(i as int);
        let ghost old_out = out@;
        let ghost old_st = st;
        assert(v@.take(i + 1).drop_last() =~= pre);
        assert(v@.take(i + 1).last() == v@[i as int]);
        proof {
            lemma_split_state_len(pre);
        }
        if v[i] == '\n' {
            let end = if i > start && v[i - 1] == '\r' {
                i - 1
            } else {
                i
            };
            proof {
                let cur = v@.subrange(start as int, i as int);
                assert(strip_cr(cur) =~= v@.subrange(start as int, end as int));
            }
            if count > 0 {
                out.append("\n");
            }
            let ghost mid_out = out@;
            st = rewrite_one_line(content, &v, start, end, st, map_name, &mut out);
            proof {
                reveal_strlit("\n");
                let (done, cur) = split_state(pre);
                let (s0, outs) = rewrite_lines(done, map_name@);
                let line = strip_cr(cur);
                let (s1, o) = rewrite_line(s0, line, map_name@);
                assert(split_state(v@.take(i + 1)) == (done.push(line), Seq::<char>::empty()));
                assert(done.push(line).drop_last() =~= done);
                assert(done.push(line).last() == line);
                assert(rewrite_lines(done.push(line), map_name@) == (s1, outs.push(o)));
                lemma_join_push(outs, o);
                if count > 0 {
                    assert(mid_out =~= old_out + seq!['\n']);
                } else {
                    assert(mid_out =~= old_out);
                    assert(old_out =~= Seq::<char>::empty());
                }
                assert(out@ =~= join_lines(outs.push(o)));
            }
            count = count + 1;
            start = i + 1;
            proof {
                assert(v@.subrange(start as int, i + 1) =~= Seq::<char>::empty());
            }
        } else {
            proof {
                assert(v@.subrange(start as int, i + 1) =~= v@.subrange(start as int, i as int).push(
                    v@[i as int],
                ));
            }
        }
        i = i + 1;
    }
    assert(v@.take(n as int) =~= v@);
    let ghost old_out = out@;
    if start < n {
        if count > 0 {
            out.append("\n");
        }
        let ghost mid_out = out@;
        let _ = rewrite_one_line(content, &v, start, n, st, map_name, &mut out);
        proof {
            reveal_strlit("\n");
            let (done, cur) = split_state(v@);
            let (s0, outs) = rewrite_lines(done, map_name@);
            let (s1, o) = rewrite_line(s0, cur, map_name@);
            assert(done.push(cur).drop_last() =~= done);
            assert(done.push(cur).last() == cur);
            lemma_join_push(outs, o);
            if count > 0 {
                assert(mid_out =~= old_out + seq!['\n']);
            } else {
                assert(mid_out =~= old_out);
                assert(old_out =~= Seq::<char>::empty());
            }
            assert(out@ =~= join_lines(outs.push(o)));
        }
    }
    out
}

} // verus!
