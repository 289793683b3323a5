//! How the text of a cell that is still changing is found for a selection.

use vstd::prelude::*;

use crate::text;

verus! {

/// The columns that stand before the text of an agent message.
pub const OUTER_PREFIX_COLUMNS: usize = 2;

/// The text of each row of a cell.
pub struct CellSelectionProjection {
    pub rows: Vec<String>,
}

impl CellSelectionProjection {
    pub open spec fn texts(&self) -> Seq<Seq<char>> {
        text::views(self.rows@)
    }
}

pub open spec fn projection_texts(projection: Option<CellSelectionProjection>) -> Option<
    Seq<Seq<char>>,
> {
    match projection {
        Some(p) => Some(p.texts()),
        None => None,
    }
}

pub enum ActiveCellSelectionHandle {
    Ready(Option<CellSelectionProjection>),
    /// A message whose projection is rendered from its source when it is needed.
    AgentMarkdown { source: String, cwd: String, markdown_width: usize, display_width: u16 },
}

/// What the projection of a message is rendered from.
pub struct MarkdownSelectionRequest {
    pub source: String,
    pub cwd: String,
    pub markdown_width: usize,
    pub display_lines: Vec<String>,
    pub display_width: u16,
    pub outer_prefix_columns: usize,
}

/// Whether a request is that of a handle and the lines that are shown.
pub open spec fn request_matches(
    request: MarkdownSelectionRequest,
    handle: ActiveCellSelectionHandle,
    display_lines: Seq<Seq<char>>,
) -> bool {
    match handle {
        ActiveCellSelectionHandle::AgentMarkdown {
            source,
            cwd,
            markdown_width,
            display_width,
        } => {
            &&& request.source@ == source@
            &&& request.cwd@ == cwd@
            &&& request.markdown_width == markdown_width
            &&& request.display_width == display_width
            &&& request.outer_prefix_columns == OUTER_PREFIX_COLUMNS
            &&& text::views(request.display_lines@) == display_lines
        },
        _ => false,
    }
}

impl ActiveCellSelectionHandle {
    pub fn ready(projection: Option<CellSelectionProjection>) -> (r: Self)
        ensures
            r == ActiveCellSelectionHandle::Ready(projection),
    {
        ActiveCellSelectionHandle::Ready(projection)
    }

    /// The handle of a message. Its source is kept as `unwrap_markdown_fences` leaves it. A display
    /// that has no room beside the prefix shows nothing to select.
    pub fn agent_markdown<F: Fn(&str) -> String>(
        source: &str,
        cwd: &str,
        display_width: u16,
        unwrap_markdown_fences: F,
    ) -> (r: Self)
        requires
            call_requires(unwrap_markdown_fences, (source,)),
        ensures
            display_width <= OUTER_PREFIX_COLUMNS ==> r is Ready && r->Ready_0 is None,
            display_width > OUTER_PREFIX_COLUMNS ==> r is AgentMarkdown && call_ensures(
                unwrap_markdown_fences,
                (source,),
                r->source,
            ) && r->cwd@ == cwd@ && r->markdown_width == display_width - OUTER_PREFIX_COLUMNS
                && r->display_width == display_width,
    {
        if display_width as usize <= OUTER_PREFIX_COLUMNS {
            return ActiveCellSelectionHandle::Ready(None);
        }
        ActiveCellSelectionHandle::AgentMarkdown {
            source: unwrap_markdown_fences(source),
            cwd: text::owned(cwd),
            markdown_width: display_width as usize - OUTER_PREFIX_COLUMNS,
            display_width,
        }
    }

    /// The projection of the cell. That of a message is rendered from its source.
    pub fn resolve<F: Fn(MarkdownSelectionRequest) -> Option<CellSelectionProjection>>(
        &self,
        display_lines: &Vec<String>,
        render: F,
    ) -> (r: Option<CellSelectionProjection>)
        requires
            forall|request: MarkdownSelectionRequest| call_requires(render, (request,)),
        ensures
            match *self {
                ActiveCellSelectionHandle::Ready(projection) => projection_texts(r)
                    == projection_texts(projection),
                _ => exists|request: MarkdownSelectionRequest|
                    request_matches(request, *self, text::views(display_lines@))
                        && #[trigger] call_ensures(render, (request,), r),
            },
    {
        match self {
            ActiveCellSelectionHandle::Ready(projection) => match projection {
                Some(p) => Some(CellSelectionProjection { rows: text::copy_strings(&p.rows) }),
                None => None,
            },
            ActiveCellSelectionHandle::AgentMarkdown {
                source,
                cwd,
                markdown_width,
                display_width,
            } => {
                let request = MarkdownSelectionRequest {
                    source: source.clone(),
                    cwd: cwd.clone(),
                    markdown_width: *markdown_width,
                    display_lines: text::copy_strings(display_lines),
                    display_width: *display_width,
                    outer_prefix_columns: OUTER_PREFIX_COLUMNS,
                };
                proof {
                    assert(request_matches(request, *self, text::views(display_lines@)));
                }
                render(request)
            },
        }
    }
}

} // verus!
