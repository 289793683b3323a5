//! Quiet lifecycle cards for background terminals and collaborator fleets.
//!
//! Later lifecycle events update one committed card instead of adding a row for every poll,
//! write, wait, or resume.

use vstd::prelude::*;

use crate::card;
use crate::card::Card;
use crate::card::CardModel;
use crate::card::Span;
use crate::card::SpanModel;
use crate::card::SpanStyle;
use crate::text;

verus! {

pub const COMMAND_PREVIEW_GRAPHEMES: usize = 120;

pub const AGENT_MESSAGE_PREVIEW_GRAPHEMES: usize = 180;

pub const ERROR_PREVIEW_LINES: usize = 3;

pub const RESULT_PREVIEW_ITEMS: usize = 3;

pub const SHORT_AGENT_ID_GRAPHEMES: usize = 12;

pub enum TerminalInteraction {
    Poll,
    Write(String),
}

/// How a background terminal stands. The duration is kept as it is shown.
pub enum TerminalOutcome {
    Running,
    Completed { exit_code: i32, duration: String },
}

/// The card of a background terminal.
pub struct BackgroundTerminalLifecycleCell {
    pub call_id: String,
    pub process_id: String,
    pub command: String,
    pub active: bool,
    pub interactions: Vec<TerminalInteraction>,
    pub output: String,
    pub outcome: TerminalOutcome,
}

pub enum InteractionModel {
    Poll,
    Write(Seq<char>),
}

pub enum OutcomeModel {
    Running,
    Completed { exit_code: i32, duration: Seq<char> },
}

/// The card of a background terminal as a mathematical value.
#[verifier::ext_equal]
pub struct TerminalModel {
    pub call_id: Seq<char>,
    pub process_id: Seq<char>,
    pub command: Seq<char>,
    pub active: bool,
    pub interactions: Seq<InteractionModel>,
    pub output: Seq<char>,
    pub outcome: OutcomeModel,
}

impl View for TerminalInteraction {
    type V = InteractionModel;

    open spec fn view(&self) -> InteractionModel {
        match *self {
            TerminalInteraction::Poll => InteractionModel::Poll,
            TerminalInteraction::Write(text) => InteractionModel::Write(text@),
        }
    }
}

pub open spec fn interaction_models(interactions: Seq<TerminalInteraction>) -> Seq<
    InteractionModel,
> {
    Seq::new(interactions.len(), |i: int| interactions[i]@)
}

impl View for BackgroundTerminalLifecycleCell {
    type V = TerminalModel;

    open spec fn view(&self) -> TerminalModel {
        TerminalModel {
            call_id: self.call_id@,
            process_id: self.process_id@,
            command: self.command@,
            active: self.active,
            interactions: interaction_models(self.interactions@),
            output: self.output@,
            outcome: match self.outcome {
                TerminalOutcome::Running => OutcomeModel::Running,
                TerminalOutcome::Completed { exit_code, duration } => OutcomeModel::Completed {
                    exit_code,
                    duration: duration@,
                },
            },
        }
    }
}

/// Something that happens to a background terminal.
pub enum TerminalEvent {
    /// The card becomes visible.
    Activated,
    /// Text was written to the process, or it was polled where the text is empty.
    Interaction(String),
    Output(String),
    /// The process ended. A non-empty aggregated output takes the place of what was collected;
    /// `elapsed` is shown where no duration is reported.
    Completed {
        exit_code: i32,
        duration: Option<String>,
        elapsed: String,
        aggregated_output: Option<String>,
    },
}

/// The card after an event.
pub open spec fn after_event(card: TerminalModel, event: TerminalEvent) -> TerminalModel {
    match event {
        TerminalEvent::Activated => TerminalModel { active: true, ..card },
        TerminalEvent::Interaction(stdin) => TerminalModel {
            interactions: card.interactions.push(
                if stdin@.len() == 0 {
                    InteractionModel::Poll
                } else {
                    InteractionModel::Write(stdin@)
                },
            ),
            ..card
        },
        TerminalEvent::Output(chunk) => TerminalModel { output: card.output + chunk@, ..card },
        TerminalEvent::Completed { exit_code, duration, elapsed, aggregated_output } => {
            TerminalModel {
                outcome: OutcomeModel::Completed {
                    exit_code,
                    duration: match duration {
                        Some(reported) => reported@,
                        None => elapsed@,
                    },
                },
                output: match aggregated_output {
                    Some(output) => if output@.len() > 0 {
                        output@
                    } else {
                        card.output
                    },
                    None => card.output,
                },
                ..card
            }
        },
    }
}

/// A time in whole seconds, as minutes and seconds from one minute on.
pub open spec fn coarse_elapsed(seconds: nat) -> Seq<char> {
    if seconds < 60 {
        text::decimal(seconds) + "s"@
    } else {
        text::decimal(seconds / 60) + "m "@ + (if seconds % 60 < 10 {
            "0"@ + text::decimal(seconds % 60)
        } else {
            text::decimal(seconds % 60)
        }) + "s"@
    }
}

pub fn format_coarse_elapsed(seconds: u64) -> (r: String)
    ensures
        r@ == coarse_elapsed(seconds as nat),
{
    if seconds < 60 {
        let mut out = text::decimal_string(seconds);
        out.append("s");
        return out;
    }
    let rest: u64 = seconds % 60;
    let mut out = text::decimal_string(seconds / 60);
    out.append("m ");
    if rest < 10 {
        let mut padded = text::owned("0");
        padded.append(text::decimal_string(rest).as_str());
        out.append(padded.as_str());
    } else {
        out.append(text::decimal_string(rest).as_str());
    }
    out.append("s");
    out
}

/// The trimmed lines that hold something.
pub open spec fn trimmed_lines(lines: Seq<Seq<char>>) -> Seq<Seq<char>>
    decreases lines.len(),
{
    if lines.len() == 0 {
        Seq::empty()
    } else if text::trimmed(lines.last()).len() == 0 {
        trimmed_lines(lines.drop_last())
    } else {
        trimmed_lines(lines.drop_last()).push(text::trimmed(lines.last()))
    }
}

/// The last so many elements.
pub open spec fn last_of(lines: Seq<Seq<char>>, limit: int) -> Seq<Seq<char>> {
    if lines.len() > limit {
        lines.skip(lines.len() - limit)
    } else {
        lines
    }
}

pub fn last_nonempty_lines(source: &str, limit: usize) -> (r: Vec<String>)
    ensures
        text::views(r@) == last_of(trimmed_lines(text::lines_of(source@)), limit as int),
{
    let lines = text::lines(text::chars_of(source).as_slice());
    let ghost all = text::views(lines@);
    let mut kept: Vec<String> = Vec::new();
    let mut i: usize = 0;
    while i < lines.len()
        invariant
            i <= lines@.len(),
            all == text::views(lines@),
            text::views(kept@) == trimmed_lines(all.take(i as int)),
        decreases lines@.len() - i,
    {
        let line = text::chars_of(lines[i].as_str());
        let inner = text::trim(line.as_slice());
        proof {
            assert(all.take(i + 1).drop_last() =~= all.take(i as int));
            assert(all.take(i + 1).last() == line@);
        }
        if inner.len() > 0 {
            let copy = text::string_of(inner);
            proof {
                text::lemma_views_push(kept@, copy);
            }
            kept.push(copy);
        }
        i += 1;
    }
    proof {
        assert(all.take(lines@.len() as int) =~= all);
    }
    if kept.len() > limit {
        let cut: usize = kept.len() - limit;
        let tail = kept.split_off(cut);
        proof {
            assert(text::views(tail@) =~= last_of(trimmed_lines(all), limit as int));
        }
        return tail;
    }
    kept
}

pub open spec fn interactions_label(count: nat) -> Seq<char> {
    if count == 1 {
        "1 interaction"@
    } else {
        text::decimal(count) + " interactions"@
    }
}

pub fn make_interactions_label(count: usize) -> (r: String)
    ensures
        r@ == interactions_label(count as nat),
{
    if count == 1 {
        return text::owned("1 interaction");
    }
    let mut out = text::decimal_string(count as u64);
    out.append(" interactions");
    out
}

impl BackgroundTerminalLifecycleCell {
    pub fn new(call_id: String, process_id: String, command: String) -> (r: Self)
        ensures
            r.call_id == call_id,
            r.process_id == process_id,
            r.command == command,
            !r.active,
            r.interactions@.len() == 0,
            r.output@.len() == 0,
            r.outcome is Running,
    {
        BackgroundTerminalLifecycleCell {
            call_id,
            process_id,
            command,
            active: false,
            interactions: Vec::new(),
            output: String::new(),
            outcome: TerminalOutcome::Running,
        }
    }

    pub fn call_id(&self) -> (r: String)
        ensures
            r == self.call_id,
    {
        self.call_id.clone()
    }

    /// Whether marking the card visible promotes it into history.
    pub open spec fn is_hidden(&self) -> bool {
        !self.active
    }

    /// Marks the card visible and returns whether this is its first promotion into history.
    pub fn activate(&mut self) -> (r: bool)
        ensures
            r == old(self).is_hidden(),
            *final(self) == (BackgroundTerminalLifecycleCell { active: true, ..*old(self) }),
    {
        let first = !self.active;
        self.active = true;
        first
    }

    pub fn is_active(&self) -> (r: bool)
        ensures
            r == self.active,
    {
        self.active
    }

    /// Notes a write, or a poll where nothing is written.
    pub fn record_interaction(&mut self, stdin: String)
        ensures
            final(self).interactions@ == old(self).interactions@.push(
                if stdin@.len() == 0 {
                    TerminalInteraction::Poll
                } else {
                    TerminalInteraction::Write(stdin)
                },
            ),
            *final(self) == (BackgroundTerminalLifecycleCell {
                interactions: final(self).interactions,
                ..*old(self)
            }),
    {
        if stdin.as_str().is_empty() {
            self.interactions.push(TerminalInteraction::Poll);
        } else {
            self.interactions.push(TerminalInteraction::Write(stdin));
        }
    }

    pub fn append_output(&mut self, chunk: &str)
        ensures
            final(self).output@ == old(self).output@ + chunk@,
            *final(self) == (BackgroundTerminalLifecycleCell {
                output: final(self).output,
                ..*old(self)
            }),
    {
        self.output.append(chunk);
    }

    /// Notes the end of the process. A non-empty aggregated output takes the place of what was
    /// collected; `elapsed` is shown where no duration is reported.
    pub fn complete(
        &mut self,
        exit_code: i32,
        duration: Option<String>,
        elapsed: String,
        aggregated_output: Option<String>,
    )
        ensures
            final(self).outcome == (TerminalOutcome::Completed {
                exit_code,
                duration: match duration {
                    Some(reported) => reported,
                    None => elapsed,
                },
            }),
            final(self).output == (match aggregated_output {
                Some(output) => if output@.len() > 0 {
                    output
                } else {
                    old(self).output
                },
                None => old(self).output,
            }),
            *final(self) == (BackgroundTerminalLifecycleCell {
                outcome: final(self).outcome,
                output: final(self).output,
                ..*old(self)
            }),
    {
        if let Some(output) = aggregated_output {
            if !output.as_str().is_empty() {
                self.output = output;
            }
        }
        self.outcome = TerminalOutcome::Completed {
            exit_code,
            duration: match duration {
                Some(reported) => reported,
                None => elapsed,
            },
        };
    }

    fn copy(&self) -> (r: Self)
        ensures
            r@ == self@,
    {
        let mut interactions: Vec<TerminalInteraction> = Vec::new();
        let mut i: usize = 0;
        while i < self.interactions.len()
            invariant
                i <= self.interactions@.len(),
                interactions@.len() == i,
                forall|j: int|
                    0 <= j < i ==> (#[trigger] interactions@[j])@ == self.interactions@[j]@,
            decreases self.interactions@.len() - i,
        {
            interactions.push(
                match &self.interactions[i] {
                    TerminalInteraction::Poll => TerminalInteraction::Poll,
                    TerminalInteraction::Write(text) => TerminalInteraction::Write(text.clone()),
                },
            );
            i += 1;
        }
        proof {
            assert(interaction_models(interactions@) =~= interaction_models(self.interactions@));
        }
        BackgroundTerminalLifecycleCell {
            call_id: self.call_id.clone(),
            process_id: self.process_id.clone(),
            command: self.command.clone(),
            active: self.active,
            interactions,
            output: self.output.clone(),
            outcome: match &self.outcome {
                TerminalOutcome::Running => TerminalOutcome::Running,
                TerminalOutcome::Completed { exit_code, duration } => TerminalOutcome::Completed {
                    exit_code: *exit_code,
                    duration: duration.clone(),
                },
            },
        }
    }

    /// The card as it is after an event.
    pub fn with_event(&self, event: TerminalEvent) -> (r: Self)
        ensures
            r@ == after_event(self@, event),
    {
        let mut card = self.copy();
        let ghost before = card.interactions@;
        match event {
            TerminalEvent::Activated => {
                let _ = card.activate();
            },
            TerminalEvent::Interaction(stdin) => {
                card.record_interaction(stdin);
                proof {
                    assert(interaction_models(card.interactions@) =~= interaction_models(
                        before,
                    ).push(card.interactions@.last()@));
                }
            },
            TerminalEvent::Output(chunk) => {
                card.append_output(chunk.as_str());
            },
            TerminalEvent::Completed { exit_code, duration, elapsed, aggregated_output } => {
                card.complete(exit_code, duration, elapsed, aggregated_output);
            },
        }
        proof {
            assert(card@ =~= after_event(self@, event));
        }
        card
    }

    pub open spec fn failed(&self) -> bool {
        self.outcome matches TerminalOutcome::Completed { exit_code, duration: _ } && exit_code != 0
    }

    /// What the card shows of the process.
    pub open spec fn outcome_span(&self, elapsed_seconds: nat) -> SpanModel {
        match self.outcome {
            TerminalOutcome::Running => card::span(
                SpanStyle::Cyan,
                "running "@ + coarse_elapsed(elapsed_seconds),
            ),
            TerminalOutcome::Completed { exit_code, duration } => if exit_code == 0 {
                card::span(SpanStyle::Green, "completed in "@ + duration@)
            } else {
                card::span(
                    SpanStyle::Red,
                    "failed (exit "@ + text::signed_decimal(exit_code as int) + ") in "@
                        + duration@,
                )
            },
        }
    }

    /// The rows that show the end of a failed process's output.
    pub open spec fn error_rows(errors: Seq<Seq<char>>) -> Seq<Seq<SpanModel>> {
        Seq::new(
            errors.len(),
            |i: int|
                seq![
                    card::span(
                        SpanStyle::Dim,
                        if i == 0 {
                            "  └ "@
                        } else {
                            "    "@
                        },
                    ),
                    card::span(SpanStyle::Red, errors[i]),
                ],
        )
    }

    pub open spec fn card(&self, elapsed_seconds: nat) -> CardModel {
        CardModel {
            header: seq![
                card::span(SpanStyle::Dim, "▸ "@),
                card::span(SpanStyle::Bold, "Terminal"@),
                card::span(SpanStyle::Dim, ": "@),
                card::clipped(
                    SpanStyle::Plain,
                    text::collapsed(self.command@),
                    COMMAND_PREVIEW_GRAPHEMES,
                ),
            ] + (if self.interactions@.len() == 0 {
                Seq::empty()
            } else {
                seq![
                    card::span(SpanStyle::Dim, " · "@),
                    card::span(SpanStyle::Plain, interactions_label(self.interactions@.len())),
                ]
            }) + seq![
                card::span(SpanStyle::Dim, " · "@),
                self.outcome_span(elapsed_seconds),
                card::span(SpanStyle::Dim, " · "@),
                card::span(SpanStyle::Dim, "Ctrl+T details"@),
            ],
            details: if self.failed() {
                Self::error_rows(
                    last_of(
                        trimmed_lines(text::lines_of(self.output@)),
                        ERROR_PREVIEW_LINES as int,
                    ),
                )
            } else {
                Seq::empty()
            },
        }
    }

    fn make_outcome_span(&self, elapsed_seconds: u64) -> (r: Span)
        ensures
            r@ == self.outcome_span(elapsed_seconds as nat),
    {
        match &self.outcome {
            TerminalOutcome::Running => {
                let mut label = text::owned("running ");
                label.append(format_coarse_elapsed(elapsed_seconds).as_str());
                card::make_span(SpanStyle::Cyan, label.as_str())
            },
            TerminalOutcome::Completed { exit_code, duration } => {
                if *exit_code == 0 {
                    let mut label = text::owned("completed in ");
                    label.append(duration.as_str());
                    card::make_span(SpanStyle::Green, label.as_str())
                } else {
                    let mut label = text::owned("failed (exit ");
                    label.append(text::signed_decimal_string(*exit_code).as_str());
                    label.append(") in ");
                    label.append(duration.as_str());
                    card::make_span(SpanStyle::Red, label.as_str())
                }
            },
        }
    }

    fn make_error_rows(errors: &Vec<String>) -> (r: Vec<Vec<Span>>)
        ensures
            card::lines_model(r@) == Self::error_rows(text::views(errors@)),
    {
        let ghost all = Self::error_rows(text::views(errors@));
        let mut rows = card::no_lines();
        let mut i: usize = 0;
        proof {
            assert(all.take(0) =~= Seq::empty());
        }
        while i < errors.len()
            invariant
                i <= errors@.len(),
                all == Self::error_rows(text::views(errors@)),
                card::lines_model(rows@) == all.take(i as int),
            decreases errors@.len() - i,
        {
            let mut row = card::no_spans();
            card::push_span(
                &mut row,
                card::make_span(
                    SpanStyle::Dim,
                    if i == 0 {
                        "  └ "
                    } else {
                        "    "
                    },
                ),
            );
            card::push_span(&mut row, card::make_span(SpanStyle::Red, errors[i].as_str()));
            proof {
                assert(card::spans(row@) =~= all[i as int]);
                assert(all.take(i + 1) =~= all.take(i as int).push(all[i as int]));
            }
            card::push_line(&mut rows, row);
            i += 1;
        }
        proof {
            assert(all.take(errors@.len() as int) =~= all);
        }
        rows
    }

    /// The card, unless it is not visible yet or has no width.
    pub fn display_lines(&self, width: u16, elapsed_seconds: u64) -> (r: Option<Card>)
        ensures
            r is Some <==> self.active && width != 0,
            r matches Some(shown) ==> shown@ == self.card(elapsed_seconds as nat),
    {
        if !self.active || width == 0 {
            return None;
        }
        let mut header = card::no_spans();
        card::push_span(&mut header, card::make_span(SpanStyle::Dim, "▸ "));
        card::push_span(&mut header, card::make_span(SpanStyle::Bold, "Terminal"));
        card::push_span(&mut header, card::make_span(SpanStyle::Dim, ": "));
        card::push_span(
            &mut header,
            card::make_clipped(
                SpanStyle::Plain,
                text::collapse_whitespace(self.command.as_str()).as_str(),
                COMMAND_PREVIEW_GRAPHEMES,
            ),
        );
        let count: usize = self.interactions.len();
        if count > 0 {
            card::push_span(&mut header, card::make_span(SpanStyle::Dim, " · "));
            card::push_span(
                &mut header,
                card::make_span(SpanStyle::Plain, make_interactions_label(count).as_str()),
            );
        }
        card::push_span(&mut header, card::make_span(SpanStyle::Dim, " · "));
        card::push_span(&mut header, self.make_outcome_span(elapsed_seconds));
        card::push_span(&mut header, card::make_span(SpanStyle::Dim, " · "));
        card::push_span(&mut header, card::make_span(SpanStyle::Dim, "Ctrl+T details"));
        let failed = match &self.outcome {
            TerminalOutcome::Running => false,
            TerminalOutcome::Completed { exit_code, duration: _ } => *exit_code != 0,
        };
        let details = if failed {
            Self::make_error_rows(&last_nonempty_lines(self.output.as_str(), ERROR_PREVIEW_LINES))
        } else {
            card::no_lines()
        };
        proof {
            assert(card::spans(header@) =~= self.card(elapsed_seconds as nat).header);
        }
        Some(Card { header, details })
    }

    pub open spec fn interaction_lines(interaction: TerminalInteraction) -> Seq<Seq<char>> {
        match interaction {
            TerminalInteraction::Poll => seq!["[poll]"@],
            TerminalInteraction::Write(stdin) => seq!["[stdin]"@] + text::lines_of(stdin@),
        }
    }

    pub open spec fn interactions_lines(interactions: Seq<TerminalInteraction>) -> Seq<Seq<char>>
        decreases interactions.len(),
    {
        if interactions.len() == 0 {
            Seq::empty()
        } else {
            Self::interactions_lines(interactions.drop_last()) + Self::interaction_lines(
                interactions.last(),
            )
        }
    }

    /// The plain record of everything that happened to the terminal.
    pub open spec fn record(&self, elapsed_seconds: nat) -> Seq<Seq<char>> {
        seq!["Background terminal "@ + self.process_id@, "$ "@ + self.command@]
            + Self::interactions_lines(self.interactions@) + (if self.output@.len() == 0 {
            Seq::empty()
        } else {
            seq!["[output]"@] + text::lines_of(self.output@)
        }) + seq![
            match self.outcome {
                TerminalOutcome::Running => "[running "@ + coarse_elapsed(elapsed_seconds) + "]"@,
                TerminalOutcome::Completed { exit_code, duration } => "[exit "@
                    + text::signed_decimal(exit_code as int) + " after "@ + duration@ + "]"@,
            },
        ]
    }

    pub fn raw_lines(&self, elapsed_seconds: u64) -> (r: Vec<String>)
        ensures
            text::views(r@) == self.record(elapsed_seconds as nat),
    {
        let mut lines: Vec<String> = Vec::new();
        proof {
            assert(text::views(lines@) =~= Seq::empty());
        }
        let mut first = text::owned("Background terminal ");
        first.append(self.process_id.as_str());
        text::push_text(&mut lines, first);
        let mut second = text::owned("$ ");
        second.append(self.command.as_str());
        text::push_text(&mut lines, second);
        let ghost head = text::views(lines@);
        proof {
            assert(head =~= seq!["Background terminal "@ + self.process_id@, "$ "@ + self.command@]);
            assert(head + Self::interactions_lines(self.interactions@.take(0)) =~= head);
        }
        let mut i: usize = 0;
        while i < self.interactions.len()
            invariant
                i <= self.interactions@.len(),
                text::views(lines@) == head + Self::interactions_lines(
                    self.interactions@.take(i as int),
                ),
            decreases self.interactions@.len() - i,
        {
            let ghost before = text::views(lines@);
            proof {
                assert(self.interactions@.take(i + 1).drop_last() =~= self.interactions@.take(
                    i as int,
                ));
            }
            match &self.interactions[i] {
                TerminalInteraction::Poll => {
                    text::push_text(&mut lines, text::owned("[poll]"));
                },
                TerminalInteraction::Write(stdin) => {
                    text::push_text(&mut lines, text::owned("[stdin]"));
                    text::push_texts(
                        &mut lines,
                        text::lines(text::chars_of(stdin.as_str()).as_slice()),
                    );
                },
            }
            proof {
                assert(text::views(lines@) =~= before + Self::interaction_lines(
                    self.interactions@[i as int],
                ));
                assert(text::views(lines@) =~= head + Self::interactions_lines(
                    self.interactions@.take(i + 1),
                ));
            }
            i += 1;
        }
        proof {
            assert(self.interactions@.take(self.interactions@.len() as int)
                =~= self.interactions@);
        }
        let ghost middle = text::views(lines@);
        if !self.output.as_str().is_empty() {
            text::push_text(&mut lines, text::owned("[output]"));
            text::push_texts(
                &mut lines,
                text::lines(text::chars_of(self.output.as_str()).as_slice()),
            );
        }
        proof {
            assert(text::views(lines@) =~= middle + (if self.output@.len() == 0 {
                Seq::empty()
            } else {
                seq!["[output]"@] + text::lines_of(self.output@)
            }));
        }
        let last = match &self.outcome {
            TerminalOutcome::Running => {
                let mut line = text::owned("[running ");
                line.append(format_coarse_elapsed(elapsed_seconds).as_str());
                line.append("]");
                line
            },
            TerminalOutcome::Completed { exit_code, duration } => {
                let mut line = text::owned("[exit ");
                line.append(text::signed_decimal_string(*exit_code).as_str());
                line.append(" after ");
                line.append(duration.as_str());
                line.append("]");
                line
            },
        };
        text::push_text(&mut lines, last);
        proof {
            assert(text::views(lines@) =~= self.record(elapsed_seconds as nat));
        }
        lines
    }
}

/// A failed process shows its exit code and the end of its output.
pub proof fn law_failure_is_never_hidden(
    cell: BackgroundTerminalLifecycleCell,
    elapsed_seconds: nat,
)
    requires
        cell.failed(),
    ensures
        cell.outcome_span(elapsed_seconds).style == SpanStyle::Red,
        cell.card(elapsed_seconds).details.len() == last_of(
            trimmed_lines(text::lines_of(cell.output@)),
            ERROR_PREVIEW_LINES as int,
        ).len(),
        forall|i: int|
            0 <= i < cell.card(elapsed_seconds).details.len() ==> (
            #[trigger] cell.card(elapsed_seconds).details[i])[1] == card::span(
                SpanStyle::Red,
                last_of(
                    trimmed_lines(text::lines_of(cell.output@)),
                    ERROR_PREVIEW_LINES as int,
                )[i],
            ),
{
}

} // verus!
