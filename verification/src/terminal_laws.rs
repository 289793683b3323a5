//! Laws of the card of a background terminal.

use vstd::prelude::*;

use crate::card::SpanStyle;
use crate::lifecycle;
use crate::lifecycle::BackgroundTerminalLifecycleCell;
use crate::lifecycle::InteractionModel;
use crate::lifecycle::OutcomeModel;
use crate::lifecycle::TerminalEvent;
use crate::lifecycle::TerminalInteraction;
use crate::lifecycle::TerminalModel;
use crate::lifecycle::TerminalOutcome;
use crate::text;

verus! {

/// An event changes its own part of a card: a promotion makes it visible, an interaction is added
/// behind the others, output is added behind the output, and an end sets the outcome. What the
/// card stands for never changes, and nothing that was noted is lost but output that the end
/// reports as a whole.
pub proof fn law_events_add_to_the_card(card: TerminalModel, event: TerminalEvent)
    ensures
        ({
            let after = lifecycle::after_event(card, event);
            &&& after.call_id == card.call_id && after.process_id == card.process_id
                && after.command == card.command
            &&& event is Activated ==> after.active
            &&& !(event is Activated) ==> after.active == card.active
            &&& event is Interaction ==> after.interactions.len() == card.interactions.len() + 1
                && after.interactions.drop_last() == card.interactions
            &&& !(event is Interaction) ==> after.interactions == card.interactions
            &&& event matches TerminalEvent::Interaction(stdin) ==> {
                &&& stdin@.len() == 0 ==> after.interactions.last() == InteractionModel::Poll
                &&& stdin@.len() > 0 ==> after.interactions.last() == InteractionModel::Write(
                    stdin@,
                )
            }
            &&& event matches TerminalEvent::Output(chunk) ==> after.output == card.output + chunk@
            &&& event is Activated || event is Interaction ==> after.output == card.output
            &&& !(event is Completed) ==> after.outcome == card.outcome
        }),
{
    let after = lifecycle::after_event(card, event);
    if event is Interaction {
        assert(after.interactions.drop_last() =~= card.interactions);
    }
}

/// A process that ended is shown with its exit code and with the time that it reported, or the
/// time that passed where it reported none. An output that comes with the end takes the place of
/// what was collected, unless it is empty.
pub proof fn law_end_sets_the_outcome(
    card: TerminalModel,
    exit_code: i32,
    duration: Option<String>,
    elapsed: String,
    aggregated_output: Option<String>,
)
    ensures
        ({
            let after = lifecycle::after_event(
                card,
                TerminalEvent::Completed { exit_code, duration, elapsed, aggregated_output },
            );
            &&& after.outcome matches OutcomeModel::Completed { exit_code: code, duration: shown }
                && code == exit_code && (match duration {
                Some(reported) => shown == reported@,
                None => shown == elapsed@,
            })
            &&& aggregated_output is None ==> after.output == card.output
            &&& aggregated_output matches Some(output) ==> {
                &&& output@.len() > 0 ==> after.output == output@
                &&& output@.len() == 0 ==> after.output == card.output
            }
        }),
{
}

/// The card says how a terminal stands: that it runs, and for how long; that it completed; or that
/// it failed, with its exit code. A failure is red, a success green.
pub proof fn law_card_says_how_a_terminal_stands(
    cell: BackgroundTerminalLifecycleCell,
    elapsed_seconds: nat,
)
    ensures
        ({
            let header = cell.card(elapsed_seconds).header;
            let n = header.len() as int;
            let shown = header[n - 3];
            &&& header[1].text == "Terminal"@
            &&& header[3].text == text::collapsed(cell.command@) && header[3].clip == Some(
                120usize,
            )
            &&& header[n - 1].text == "Ctrl+T details"@
            &&& cell.outcome is Running ==> shown.text == "running "@ + lifecycle::coarse_elapsed(
                elapsed_seconds,
            ) && shown.style == SpanStyle::Cyan
            &&& cell.outcome matches TerminalOutcome::Completed { exit_code, duration } ==> {
                &&& exit_code == 0 ==> shown.text == "completed in "@ + duration@ && shown.style
                    == SpanStyle::Green
                &&& exit_code != 0 ==> shown.text == "failed (exit "@ + text::signed_decimal(
                    exit_code as int,
                ) + ") in "@ + duration@ && shown.style == SpanStyle::Red
            }
            &&& cell.interactions@.len() == 0 ==> n == 8
            &&& cell.interactions@.len() == 1 ==> n == 10 && header[5].text == "1 interaction"@
            &&& cell.interactions@.len() > 1 ==> n == 10 && header[5].text == text::decimal(
                cell.interactions@.len(),
            ) + " interactions"@
        }),
{
}

/// Only a failure shows output: no rows for a terminal that runs or that completed, and up to three
/// for one that failed.
pub proof fn law_only_a_failure_shows_output(
    cell: BackgroundTerminalLifecycleCell,
    elapsed_seconds: nat,
)
    ensures
        cell.outcome is Running ==> cell.card(elapsed_seconds).details.len() == 0,
        cell.outcome matches TerminalOutcome::Completed { exit_code, duration: _ } ==> (exit_code
            == 0 ==> cell.card(elapsed_seconds).details.len() == 0),
        cell.card(elapsed_seconds).details.len() <= 3,
{
}

/// The lines of a text that hold something, without the spaces around them.
pub open spec fn inked(lines: Seq<Seq<char>>) -> Seq<Seq<char>> {
    lines.map_values(|l: Seq<char>| text::trimmed(l)).filter(|l: Seq<char>| l.len() > 0)
}

proof fn lemma_inked(lines: Seq<Seq<char>>)
    ensures
        lifecycle::trimmed_lines(lines) == inked(lines),
    decreases lines.len(),
{
    reveal(Seq::filter);
    let all = lines.map_values(|l: Seq<char>| text::trimmed(l));
    if lines.len() > 0 {
        lemma_inked(lines.drop_last());
        assert(all.drop_last() =~= lines.drop_last().map_values(
            |l: Seq<char>| text::trimmed(l),
        ));
    }
}

/// A failed terminal shows the last lines of its output that hold something, in their order, and
/// all of them where there are no more than three.
pub proof fn law_failure_shows_the_end_of_the_output(
    cell: BackgroundTerminalLifecycleCell,
    elapsed_seconds: nat,
    k: int,
)
    requires
        cell.outcome matches TerminalOutcome::Completed { exit_code, duration: _ } && exit_code
            != 0,
        0 <= k < cell.card(elapsed_seconds).details.len(),
    ensures
        ({
            let lines = inked(text::lines_of(cell.output@));
            let rows = cell.card(elapsed_seconds).details;
            &&& rows.len() == if lines.len() < 3 {
                lines.len()
            } else {
                3
            }
            &&& rows[k].len() == 2
            &&& rows[k][1].text == lines[lines.len() - rows.len() + k]
            &&& rows[k][1].style == SpanStyle::Red
            &&& rows[k][0].text == (if k == 0 {
                "  └ "@
            } else {
                "    "@
            })
        }),
{
    lemma_inked(text::lines_of(cell.output@));
}

/// A time is shown in seconds below a minute, and from then on as minutes and two digits of
/// seconds.
pub proof fn law_time_is_minutes_and_seconds(minutes: nat, seconds: nat)
    requires
        seconds < 60,
    ensures
        ({
            let shown = lifecycle::coarse_elapsed(60 * minutes + seconds);
            &&& minutes == 0 ==> shown == text::decimal(seconds) + "s"@
            &&& minutes > 0 && seconds >= 10 ==> shown == text::decimal(minutes) + "m "@
                + text::decimal(seconds) + "s"@
            &&& minutes > 0 && seconds < 10 ==> shown == text::decimal(minutes) + "m "@ + ("0"@
                + text::decimal(seconds)) + "s"@
        }),
{
    let total = 60 * minutes + seconds;
    assert(total / 60 == minutes && total % 60 == seconds) by (nonlinear_arith)
        requires
            total == 60 * minutes + seconds,
            seconds < 60,
    ;
}

proof fn lemma_interactions_kept(
    interactions: Seq<TerminalInteraction>,
    more: TerminalInteraction,
)
    ensures
        BackgroundTerminalLifecycleCell::interactions_lines(interactions.push(more))
            == BackgroundTerminalLifecycleCell::interactions_lines(interactions)
            + BackgroundTerminalLifecycleCell::interaction_lines(more),
{
    assert(interactions.push(more).drop_last() =~= interactions);
}

/// The record of a terminal names the process and the command, lists what was written to it in
/// order, holds its whole output, and ends with how it stands.
pub proof fn law_record_holds_everything(
    cell: BackgroundTerminalLifecycleCell,
    elapsed_seconds: nat,
    more: TerminalInteraction,
)
    ensures
        ({
            let record = cell.record(elapsed_seconds);
            let n = record.len() as int;
            let out = text::lines_of(cell.output@);
            &&& n >= 3
            &&& record[0] == "Background terminal "@ + cell.process_id@
            &&& record[1] == "$ "@ + cell.command@
            &&& cell.outcome is Running ==> record[n - 1] == "[running "@
                + lifecycle::coarse_elapsed(elapsed_seconds) + "]"@
            &&& cell.outcome matches TerminalOutcome::Completed { exit_code, duration }
                ==> record[n - 1] == "[exit "@ + text::signed_decimal(exit_code as int)
                + " after "@ + duration@ + "]"@
            &&& cell.output@.len() > 0 ==> n >= out.len() + 4 && record[n - 2 - out.len()]
                == "[output]"@ && record.subrange(n - 1 - out.len(), n - 1) == out
            &&& BackgroundTerminalLifecycleCell::interactions_lines(Seq::empty()).len() == 0
            &&& record.subrange(
                2,
                2 + BackgroundTerminalLifecycleCell::interactions_lines(
                    cell.interactions@,
                ).len() as int,
            ) == BackgroundTerminalLifecycleCell::interactions_lines(cell.interactions@)
        }),
        BackgroundTerminalLifecycleCell::interactions_lines(cell.interactions@.push(more))
            == BackgroundTerminalLifecycleCell::interactions_lines(cell.interactions@) + (
        match more {
            TerminalInteraction::Poll => seq!["[poll]"@],
            TerminalInteraction::Write(stdin) => seq!["[stdin]"@] + text::lines_of(stdin@),
        }),
{
    lemma_interactions_kept(cell.interactions@, more);
    let record = cell.record(elapsed_seconds);
    let n = record.len() as int;
    let out = text::lines_of(cell.output@);
    let lines = BackgroundTerminalLifecycleCell::interactions_lines(cell.interactions@);
    assert(record.subrange(2, 2 + lines.len() as int) =~= lines);
    if cell.output@.len() > 0 {
        assert(record.subrange(n - 1 - out.len(), n - 1) =~= out);
    }
}

/// A card is promoted into history once: when it is hidden, and never again after that, whatever
/// happens.
pub proof fn law_card_is_promoted_once(
    before: &BackgroundTerminalLifecycleCell,
    after: &BackgroundTerminalLifecycleCell,
    event: TerminalEvent,
)
    requires
        after@ == lifecycle::after_event(before@, event),
    ensures
        before.is_hidden() <==> !before@.active,
        event is Activated ==> !after.is_hidden(),
        !before.is_hidden() ==> !after.is_hidden(),
        !(event is Activated) ==> after.is_hidden() == before.is_hidden(),
{
}

/// The parts of a card are set apart by dots, behind a mark and its name; only the command is cut
/// short. The rows of a failure stand below the card, the first one with a hook, in red.
pub proof fn law_card_sets_its_parts_apart(
    cell: BackgroundTerminalLifecycleCell,
    elapsed_seconds: nat,
    k: int,
)
    ensures
        ({
            let header = cell.card(elapsed_seconds).header;
            let n = header.len() as int;
            &&& header[0].text == "▸ "@ && header[0].style == SpanStyle::Dim
            &&& header[1].style == SpanStyle::Bold
            &&& header[2].text == ": "@ && header[2].style == SpanStyle::Dim
            &&& header[3].style == SpanStyle::Plain
            &&& header[n - 4].text == " · "@ && header[n - 4].style == SpanStyle::Dim
            &&& header[n - 2].text == " · "@ && header[n - 2].style == SpanStyle::Dim
            &&& header[n - 1].style == SpanStyle::Dim
            &&& cell.interactions@.len() > 0 ==> header[4].text == " · "@ && header[4].style
                == SpanStyle::Dim && header[5].style == SpanStyle::Plain
            &&& 0 <= k < n && k != 3 ==> header[k].clip is None
        }),
        ({
            let rows = cell.card(elapsed_seconds).details;
            0 <= k < rows.len() ==> {
                &&& rows[k].len() == 2
                &&& rows[k][0].text == if k == 0 {
                    "  └ "@
                } else {
                    "    "@
                }
                &&& rows[k][0].style == SpanStyle::Dim && rows[k][1].style == SpanStyle::Red
            }
        }),
{
}

} // verus!
