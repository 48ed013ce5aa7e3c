//! Parsing the whitespace-columnar process listing that the remote `jps`
//! tool prints: one row per line, `<pid> <name>`, excluding the row the
//! listing tool reports for itself.

use vstd::prelude::*;

use crate::text::find_char;
use crate::text::find_char_index;
use crate::text::lemma_find_char;

verus! {

/// The separators between the columns of one listing row. The listing tool
/// prints ASCII only, so this deliberately covers the blank, the tab and the
/// carriage return and no further Unicode whitespace.
pub open spec fn is_space(c: char) -> bool {
    c == ' ' || c == '\t' || c == '\r'
}

/// The lines of a text: split at every newline, with no empty final line
/// after a trailing newline.
pub open spec fn lines_spec(s: Seq<char>) -> Seq<Seq<char>>
    decreases s.len(),
{
    if s.len() == 0 {
        Seq::empty()
    } else {
        let f = find_char(s, '\n');
        if 0 <= f < s.len() {
            seq![s.subrange(0, f)] + lines_spec(s.skip(f + 1))
        } else {
            seq![s]
        }
    }
}

/// A line with its leading separators removed.
pub open spec fn skip_spaces_spec(s: Seq<char>) -> Seq<char>
    decreases s.len(),
{
    if s.len() > 0 && is_space(s[0]) {
        skip_spaces_spec(s.skip(1))
    } else {
        s
    }
}

/// The leading run of non-separator characters.
pub open spec fn take_token_spec(s: Seq<char>) -> Seq<char>
    decreases s.len(),
{
    if s.len() > 0 && !is_space(s[0]) {
        seq![s[0]] + take_token_spec(s.skip(1))
    } else {
        Seq::empty()
    }
}

/// What remains after the leading run of non-separator characters.
pub open spec fn drop_token_spec(s: Seq<char>) -> Seq<char>
    decreases s.len(),
{
    if s.len() > 0 && !is_space(s[0]) {
        drop_token_spec(s.skip(1))
    } else {
        s
    }
}

/// The first two whitespace-separated columns of a line, when it has two.
pub open spec fn first_two_tokens(line: Seq<char>) -> Option<(Seq<char>, Seq<char>)> {
    let r1 = skip_spaces_spec(line);
    let t1 = take_token_spec(r1);
    let r2 = skip_spaces_spec(drop_token_spec(r1));
    let t2 = take_token_spec(r2);
    if t1.len() == 0 || t2.len() == 0 {
        None
    } else {
        Some((t1, t2))
    }
}

/// The name under which the listing tool reports itself; its row is
/// excluded.
pub open spec fn jps_tool_name() -> Seq<char> {
    seq!['J', 'p', 's']
}

/// The rows kept from a run of lines: those with two columns whose name
/// column is not the listing tool's own name, in order.
pub open spec fn jps_rows(lines: Seq<Seq<char>>) -> Seq<(Seq<char>, Seq<char>)>
    decreases lines.len(),
{
    if lines.len() == 0 {
        Seq::empty()
    } else {
        let head = match first_two_tokens(lines[0]) {
            Some(t) => if t.1 == jps_tool_name() {
                Seq::<(Seq<char>, Seq<char>)>::empty()
            } else {
                seq![t]
            },
            None => Seq::<(Seq<char>, Seq<char>)>::empty(),
        };
        head + jps_rows(lines.skip(1))
    }
}

/// The process rows parsed out of the whole listing text.
pub open spec fn parse_jps_spec(s: Seq<char>) -> Seq<(Seq<char>, Seq<char>)> {
    jps_rows(lines_spec(s))
}

/// One remote process of the listing: its identifier and its display name.
pub struct JavaProcess {
    pub java_pid: String,
    pub java_name: String,
}

impl View for JavaProcess {
    type V = (Seq<char>, Seq<char>);

    open spec fn view(&self) -> (Seq<char>, Seq<char>) {
        (self.java_pid@, self.java_name@)
    }
}

/// The images of a run of parsed processes.
pub open spec fn process_views(v: Seq<JavaProcess>) -> Seq<(Seq<char>, Seq<char>)> {
    v.map_values(|p: JavaProcess| p@)
}

/// Whether `c` separates columns.
fn char_is_space(c: char) -> (r: bool)
    ensures
        r == is_space(c),
{
    c == ' ' || c == '\t' || c == '\r'
}

/// Remove the leading separators of a line.
fn skip_spaces(s: &str) -> (r: String)
    ensures
        r@ == skip_spaces_spec(s@),
    decreases s@.len(),
{
    let n = s.unicode_len();
    if n > 0 {
        if char_is_space(s.get_char(0)) {
            let rest = s.substring_char(1, n);
            proof {
                assert(rest@ =~= s@.skip(1));
            }
            return skip_spaces(rest);
        }
    }
    String::from_str(s)
}

/// Copy the leading column of a line.
fn take_token(s: &str) -> (r: String)
    ensures
        r@ == take_token_spec(s@),
    decreases s@.len(),
{
    let n = s.unicode_len();
    if n > 0 {
        if !char_is_space(s.get_char(0)) {
            let head = s.substring_char(0, 1);
            let rest = s.substring_char(1, n);
            let tail = take_token(rest);
            proof {
                assert(head@ =~= seq![s@[0]]);
                assert(rest@ =~= s@.skip(1));
            }
            return String::from_str(head).concat(tail.as_str());
        }
    }
    String::new()
}

/// Remove the leading column of a line.
fn drop_token(s: &str) -> (r: String)
    ensures
        r@ == drop_token_spec(s@),
    decreases s@.len(),
{
    let n = s.unicode_len();
    if n > 0 {
        if !char_is_space(s.get_char(0)) {
            let rest = s.substring_char(1, n);
            proof {
                assert(rest@ =~= s@.skip(1));
            }
            return drop_token(rest);
        }
    }
    String::from_str(s)
}

/// The first two columns of one listing line, when it has two.
fn line_tokens(line: &str) -> (r: Option<(String, String)>)
    ensures
        r matches Some(t) ==> first_two_tokens(line@) == Some((t.0@, t.1@)),
        r is None ==> first_two_tokens(line@) is None,
{
    let r1 = skip_spaces(line);
    let t1 = take_token(r1.as_str());
    let d = drop_token(r1.as_str());
    let r2 = skip_spaces(d.as_str());
    let t2 = take_token(r2.as_str());
    if t1.as_str().unicode_len() == 0 || t2.as_str().unicode_len() == 0 {
        None
    } else {
        Some((t1, t2))
    }
}

/// Mapping lines to views commutes with appending one line.
proof fn lemma_line_views_push(v: Seq<String>, x: String)
    ensures
        v.push(x).map_values(|l: String| l@) == v.map_values(|l: String| l@).push(x@),
{
    assert(v.push(x).map_values(|l: String| l@) =~= v.map_values(|l: String| l@).push(x@));
}

/// Split a text into its lines.
#[verifier::loop_isolation(false)]
fn split_lines(s: &str) -> (r: Vec<String>)
    ensures
        r@.map_values(|l: String| l@) == lines_spec(s@),
{
    let mut rem = String::from_str(s);
    let mut out: Vec<String> = Vec::new();
    proof {
        assert(out@.map_values(|l: String| l@) + lines_spec(s@) =~= lines_spec(s@));
    }
    loop
        invariant
            lines_spec(s@) == out@.map_values(|l: String| l@) + lines_spec(rem@),
        decreases rem@.len(),
    {
        let n = rem.as_str().unicode_len();
        if n == 0 {
            proof {
                assert(out@.map_values(|l: String| l@) + lines_spec(rem@) =~= out@.map_values(
                    |l: String| l@,
                ));
            }
            break;
        }
        let ghost old_out = out@.map_values(|l: String| l@);
        match find_char_index(rem.as_str(), '\n') {
            Some(f) => {
                proof {
                    lemma_find_char(rem@, '\n');
                }
                let head = rem.as_str().substring_char(0, f);
                let rest = rem.as_str().substring_char(f + 1, n);
                let next = String::from_str(rest);
                let head_s = String::from_str(head);
                proof {
                    lemma_line_views_push(out@, head_s);
                }
                let ghost rem0 = rem@;
                out.push(head_s);
                rem = next;
                proof {
                    assert(rem@ =~= rem0.skip(f + 1));
                    assert(lines_spec(rem0) == seq![rem0.subrange(0, f as int)] + lines_spec(
                        rem@,
                    ));
                    assert(old_out.push(rem0.subrange(0, f as int)) =~= old_out + seq![
                        rem0.subrange(0, f as int),
                    ]);
                    assert(old_out + (seq![rem0.subrange(0, f as int)] + lines_spec(rem@)) =~= (
                    old_out + seq![rem0.subrange(0, f as int)]) + lines_spec(rem@));
                }
            },
            None => {
                proof {
                    lemma_find_char(rem@, '\n');
                    assert(lines_spec(rem@) == seq![rem@]);
                }
                let ghost rem0 = rem@;
                let whole = rem;
                proof {
                    lemma_line_views_push(out@, whole);
                }
                out.push(whole);
                rem = String::new();
                proof {
                    assert(lines_spec(rem@).len() == 0);
                    assert(old_out.push(rem0) =~= old_out + seq![rem0]);
                    assert((old_out + seq![rem0]) + lines_spec(rem@) =~= old_out + seq![rem0]);
                }
            },
        }
    }
    out
}

/// Mapping processes to views commutes with appending one process.
proof fn lemma_process_views_push(v: Seq<JavaProcess>, x: JavaProcess)
    ensures
        process_views(v.push(x)) == process_views(v).push(x@),
{
    assert(process_views(v.push(x)) =~= process_views(v).push(x@));
}

/// Unfolding one step of the row collection at position `i`.
proof fn lemma_jps_rows_step(lines: Seq<Seq<char>>, i: int)
    requires
        0 <= i < lines.len(),
    ensures
        ({
            let head = match first_two_tokens(lines[i]) {
                Some(t) => if t.1 == jps_tool_name() {
                    Seq::<(Seq<char>, Seq<char>)>::empty()
                } else {
                    seq![t]
                },
                None => Seq::<(Seq<char>, Seq<char>)>::empty(),
            };
            jps_rows(lines.skip(i)) == head + jps_rows(lines.skip(i + 1))
        }),
{
    let t = lines.skip(i);
    assert(t[0] == lines[i]);
    assert(t.skip(1) =~= lines.skip(i + 1));
}

/// Parse the listing text into its process rows, excluding the listing
/// tool's own row.
#[verifier::loop_isolation(false)]
pub fn parse_jps_str(input: &str) -> (r: Vec<JavaProcess>)
    ensures
        process_views(r@) == parse_jps_spec(input@),
{
    let lines = split_lines(input);
    let ghost lv = lines@.map_values(|l: String| l@);
    let n = lines.len();
    let mut out: Vec<JavaProcess> = Vec::new();
    let mut i: usize = 0;
    proof {
        assert(lv.skip(0) =~= lv);
        assert(process_views(out@) =~= Seq::<(Seq<char>, Seq<char>)>::empty());
        assert(process_views(out@) + jps_rows(lv) =~= jps_rows(lv));
    }
    while i < n
        invariant
            i <= n,
            jps_rows(lv) == process_views(out@) + jps_rows(lv.skip(i as int)),
        decreases n - i,
    {
        proof {
            lemma_jps_rows_step(lv, i as int);
        }
        let ghost old_views = process_views(out@);
        let tool = String::from_str("Jps");
        proof {
            reveal_strlit("Jps");
            assert(tool@ =~= jps_tool_name());
        }
        match line_tokens(lines[i].as_str()) {
            Some(t) => {
                let (pid, pname) = t;
                if pname == tool {
                    proof {
                        assert(Seq::<(Seq<char>, Seq<char>)>::empty() + jps_rows(
                            lv.skip(i as int + 1),
                        ) =~= jps_rows(lv.skip(i as int + 1)));
                    }
                } else {
                    let row = JavaProcess { java_pid: pid, java_name: pname };
                    proof {
                        lemma_process_views_push(out@, row);
                        assert(old_views.push(row@) =~= old_views + seq![row@]);
                        assert(old_views + (seq![row@] + jps_rows(lv.skip(i as int + 1))) =~= (
                        old_views + seq![row@]) + jps_rows(lv.skip(i as int + 1)));
                    }
                    out.push(row);
                }
            },
            None => {
                proof {
                    assert(Seq::<(Seq<char>, Seq<char>)>::empty() + jps_rows(
                        lv.skip(i as int + 1),
                    ) =~= jps_rows(lv.skip(i as int + 1)));
                }
            },
        }
        i = i + 1;
    }
    proof {
        assert(lv.skip(n as int).len() == 0);
        assert(process_views(out@) + jps_rows(lv.skip(n as int)) =~= process_views(out@));
    }
    out
}

} // verus!
