//! The status of an assistant's pane, read off the text it shows.

use vstd::prelude::*;

use crate::session::ClaudeCodeStatus;
use crate::text::{chars_of, has_char, has_text, lines_of};

verus! {

/// The screen holds a yes-or-no question.
pub open spec fn asks(content: Seq<char>) -> bool {
    crate::text::has(content, "[y/n]"@) || crate::text::has(content, "[Y/n]"@)
}

/// The screen holds a mark of work: the interrupt hint, or the suffix that names
/// the thinking effort.
pub open spec fn works(content: Seq<char>) -> bool {
    crate::text::has(content, "to interrupt"@) || crate::text::has(content, " effort)"@)
}

/// Line `i` holds the prompt, and the line directly above it a border.
pub open spec fn prompt_under_border(lines: Seq<Seq<char>>, i: int) -> bool {
    &&& 0 < i < lines.len()
    &&& lines[i].contains('❯')
    &&& lines[i - 1].contains('─')
}

/// The screen holds an input field.
pub open spec fn shows_input_field(content: Seq<char>) -> bool {
    exists|i: int| prompt_under_border(crate::text::lines(content), i)
}

/// The status that a screen stands for. A question goes before a mark of work, and
/// a mark of work before the input field, which a busy screen shows too.
pub open spec fn status_of(content: Seq<char>) -> ClaudeCodeStatus {
    if asks(content) {
        ClaudeCodeStatus::WaitingInput
    } else if works(content) {
        ClaudeCodeStatus::Working
    } else if shows_input_field(content) {
        ClaudeCodeStatus::Idle
    } else {
        ClaudeCodeStatus::Unknown
    }
}

/// Detect the status of a pane whose content has not changed since the last check.
///
/// This is [`detect_status`]: two captures of a session that thinks for long can
/// land on the same spinner frame, so an unchanged screen may still be a working
/// one, and its marks of work have to be looked at.
pub fn detect_static_status(content: &str) -> (r: ClaudeCodeStatus)
    ensures
        r == status_of(content@),
{
    detect_status(content)
}

/// Detect the status of a pane from its content.
pub fn detect_status(content: &str) -> (r: ClaudeCodeStatus)
    ensures
        r == status_of(content@),
{
    let chars: Vec<char> = chars_of(content);
    if has_text(chars.as_slice(), "[y/n]") || has_text(chars.as_slice(), "[Y/n]") {
        return ClaudeCodeStatus::WaitingInput;
    }
    // A working screen still renders the input field, so the marks of work come first.
    if is_working_screen(content) {
        return ClaudeCodeStatus::Working;
    }
    if has_input_field(content) {
        return ClaudeCodeStatus::Idle;
    }
    ClaudeCodeStatus::Unknown
}

/// Whether the pane shows the assistant working or thinking.
///
/// The status line during work looks like one of
/// ```text
/// ✻ Cogitating… (12s · ↓ 1.2k tokens · esc to interrupt)
/// ✶ Computing… (24s · thinking more with xhigh effort)
/// ```
/// The marks that stay the same from version to version are the interrupt hint and
/// the effort suffix. Matching `to interrupt` covers every key the hint may name.
pub fn is_working_screen(content: &str) -> (r: bool)
    ensures
        r == works(content@),
{
    let chars: Vec<char> = chars_of(content);
    has_text(chars.as_slice(), "to interrupt") || has_text(chars.as_slice(), " effort)")
}

/// Whether the pane shows an input field: a prompt line with a border directly
/// above it.
pub fn has_input_field(content: &str) -> (r: bool)
    ensures
        r == shows_input_field(content@),
        r <==> exists|i: int|
            0 < i < crate::text::lines(content@).len() && (#[trigger] crate::text::lines(
                content@,
            )[i]).contains('❯') && crate::text::lines(content@)[i - 1].contains('─'),
{
    let chars: Vec<char> = chars_of(content);
    let lines: Vec<&[char]> = lines_of(chars.as_slice());
    let ghost all = crate::text::lines(content@);
    assert(crate::text::slices(lines@) == all);
    let mut i: usize = 1;
    while i < lines.len()
        invariant
            1 <= i,
            all == crate::text::lines(content@),
            crate::text::slices(lines@) == all,
            forall|j: int| 0 < j < i ==> !#[trigger] prompt_under_border(all, j),
        decreases lines@.len() - i,
    {
        assert(all[i as int] == lines@[i as int]@);
        assert(all[i - 1] == lines@[i - 1]@);
        if has_char(lines[i], '❯') && has_char(lines[i - 1], '─') {
            assert(prompt_under_border(all, i as int));
            assert(all[i as int].contains('❯'));
            return true;
        }
        assert(!prompt_under_border(all, i as int));
        i = i + 1;
    }
    assert forall|j: int|
        0 < j < all.len() && (#[trigger] all[j]).contains('❯') implies !all[j - 1].contains('─') by {
        assert(!prompt_under_border(all, j));
    }
    false
}

// ---------------------------------------------------------------------------
// Laws
// ---------------------------------------------------------------------------

/// A screen with a mark of work is never read as idle or unknown, whatever else it
/// shows: it is working, unless it asks a question.
pub proof fn law_work_hides_input_field(content: Seq<char>)
    requires
        works(content),
    ensures
        status_of(content) == ClaudeCodeStatus::Working || status_of(content)
            == ClaudeCodeStatus::WaitingInput,
        !asks(content) ==> status_of(content) == ClaudeCodeStatus::Working,
{
}

/// Marks that stand on a screen are seen wherever they stand: text around them
/// takes neither a question nor a mark of work away.
pub proof fn law_marks_survive_surroundings(
    before: Seq<char>,
    content: Seq<char>,
    after: Seq<char>,
)
    ensures
        asks(content) ==> status_of(before + content + after) == ClaudeCodeStatus::WaitingInput,
        works(content) ==> works(before + content + after),
{
    let all = before + content + after;
    assert forall|pat: Seq<char>| #[trigger]
        crate::text::has(content, pat) implies crate::text::has(all, pat) by {
        let i = choose|i: int| crate::text::occurs_at(content, pat, i);
        assert(all.subrange(before.len() + i, before.len() + i + pat.len()) == content.subrange(
            i,
            i + pat.len(),
        ));
        assert(crate::text::occurs_at(all, pat, before.len() + i));
    }
}

/// A pane is idle exactly if it shows an input field and neither asks a question
/// nor bears a mark of work.
pub proof fn law_idle_iff_plain_input_field(content: Seq<char>)
    ensures
        status_of(content) == ClaudeCodeStatus::Idle <==> shows_input_field(content) && !asks(
            content,
        ) && !works(content),
{
}

/// A screen waits for input exactly if it holds `[y/n]` or `[Y/n]`, whatever else it
/// shows. Without a question it is working exactly if it holds `to interrupt` or
/// ` effort)`.
pub proof fn law_marks_tell_status(content: Seq<char>)
    ensures
        status_of(content) == ClaudeCodeStatus::WaitingInput <==> crate::text::has(
            content,
            "[y/n]"@,
        ) || crate::text::has(content, "[Y/n]"@),
        status_of(content) == ClaudeCodeStatus::Working <==> {
            &&& !crate::text::has(content, "[y/n]"@)
            &&& !crate::text::has(content, "[Y/n]"@)
            &&& crate::text::has(content, "to interrupt"@) || crate::text::has(
                content,
                " effort)"@,
            )
        },
        works(content) <==> crate::text::has(content, "to interrupt"@) || crate::text::has(
            content,
            " effort)"@,
        ),
{
}

/// A mark of work on a screen without a question makes it a working one, whatever text
/// stands before the mark and behind it.
pub proof fn law_work_is_seen_anywhere(before: Seq<char>, after: Seq<char>)
    ensures
        works(before + "to interrupt"@ + after),
        works(before + " effort)"@ + after),
        status_of(before + "[y/n]"@ + after) == ClaudeCodeStatus::WaitingInput,
        status_of(before + "[Y/n]"@ + after) == ClaudeCodeStatus::WaitingInput,
        !crate::text::has(before + "to interrupt"@ + after, "[y/n]"@) && !crate::text::has(
            before + "to interrupt"@ + after,
            "[Y/n]"@,
        ) ==> status_of(before + "to interrupt"@ + after) == ClaudeCodeStatus::Working,
        !crate::text::has(before + " effort)"@ + after, "[y/n]"@) && !crate::text::has(
            before + " effort)"@ + after,
            "[Y/n]"@,
        ) ==> status_of(before + " effort)"@ + after) == ClaudeCodeStatus::Working,
{
    crate::text::law_put_text_is_found(before, "to interrupt"@, after);
    crate::text::law_put_text_is_found(before, " effort)"@, after);
    crate::text::law_put_text_is_found(before, "[y/n]"@, after);
    crate::text::law_put_text_is_found(before, "[Y/n]"@, after);
}

/// A screen with neither a question nor a mark of work is idle exactly if some line holds
/// a `❯` and the line directly above it a `─`, and unknown else. It does not matter which
/// line that is.
pub proof fn law_quiet_screen_is_idle_iff_prompt_under_border(content: Seq<char>)
    requires
        !crate::text::has(content, "[y/n]"@),
        !crate::text::has(content, "[Y/n]"@),
        !crate::text::has(content, "to interrupt"@),
        !crate::text::has(content, " effort)"@),
    ensures
        status_of(content) == ClaudeCodeStatus::Idle <==> exists|i: int|
            0 < i < crate::text::lines(content).len() && (#[trigger] crate::text::lines(
                content,
            )[i]).contains('❯') && crate::text::lines(content)[i - 1].contains('─'),
        status_of(content) == ClaudeCodeStatus::Idle || status_of(content)
            == ClaudeCodeStatus::Unknown,
{
    let all = crate::text::lines(content);
    if exists|i: int|
        0 < i < all.len() && (#[trigger] all[i]).contains('❯') && all[i - 1].contains('─') {
        let i = choose|i: int|
            0 < i < all.len() && (#[trigger] all[i]).contains('❯') && all[i - 1].contains('─');
        assert(prompt_under_border(all, i));
    }
    if shows_input_field(content) {
        let i = choose|i: int| prompt_under_border(all, i);
        assert(all[i].contains('❯') && all[i - 1].contains('─'));
    }
}

/// A prompt under a border is an input field, whatever lines stand above it and whatever
/// follows below it.
pub proof fn law_input_field_is_seen_anywhere(
    above: Seq<char>,
    border: Seq<char>,
    prompt: Seq<char>,
    below: Seq<char>,
)
    requires
        above.len() == 0 || above.last() == '\n',
        border.contains('─'),
        !border.contains('\n'),
        prompt.contains('❯'),
        !prompt.contains('\n'),
    ensures
        shows_input_field(above + border + seq!['\n'] + prompt + seq!['\n'] + below),
        shows_input_field(above + border + seq!['\n'] + prompt),
{
    let head = above + border + seq!['\n'];
    let upper = crate::text::lines(above).push(crate::text::without_cr(border));
    crate::text::lemma_lines_push(above, border);
    let two = head + prompt + seq!['\n'];
    crate::text::lemma_lines_push(head, prompt);
    let shown = upper.push(crate::text::without_cr(prompt));
    crate::text::law_lines_of_parts(two, below);
    lemma_keeps(border, '─');
    lemma_keeps(prompt, '❯');
    let i = upper.len() as int;
    let all = crate::text::lines(two + below);
    assert(all == shown + crate::text::lines(below));
    assert(all[i] == shown[i]);
    assert(all[i - 1] == shown[i - 1]);
    assert(prompt_under_border(all, i));
    assert(two + below == above + border + seq!['\n'] + prompt + seq!['\n'] + below);
    crate::text::law_written_line_is_read(head, prompt);
    let last = crate::text::lines(head + prompt);
    assert(last == upper.push(prompt));
    assert(prompt_under_border(last, i));
    assert(head + prompt == above + border + seq!['\n'] + prompt);
}

proof fn lemma_keeps(line: Seq<char>, c: char)
    requires
        line.contains(c),
        c != '\r',
    ensures
        crate::text::without_cr(line).contains(c),
{
    let i = choose|i: int| 0 <= i < line.len() && line[i] == c;
    assert(crate::text::without_cr(line)[i] == c);
}

/// Lines above and below a screen take no input field away from it.
pub proof fn law_input_field_survives_lines_around(
    above: Seq<char>,
    content: Seq<char>,
    below: Seq<char>,
)
    requires
        above.len() == 0 || above.last() == '\n',
        content.len() > 0 && content.last() == '\n',
        shows_input_field(content),
    ensures
        shows_input_field(above + content + below),
{
    crate::text::law_lines_of_parts(above, content + below);
    crate::text::law_lines_of_parts(content, below);
    let a = crate::text::lines(above);
    let b = crate::text::lines(content);
    let all = a + (b + crate::text::lines(below));
    assert(above + content + below == above + (content + below));
    let i = choose|i: int| prompt_under_border(b, i);
    assert(all[a.len() + i] == b[i]);
    assert(all[a.len() + i - 1] == b[i - 1]);
    assert(prompt_under_border(all, a.len() + i));
}

} // verus!
