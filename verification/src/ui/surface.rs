//! What a pane shows.
use vstd::prelude::*;
use vstd::string::*;

use crate::decimal::{decimal_text, push_decimal_text};
use crate::ids::PaneId;

verus! {

#[derive(Debug, Clone, Copy, PartialEq, Eq, Structural)]
pub enum SurfaceKind {
    Empty,
    Terminal,
    Agent,
    FileBrowser,
    ImagePreview,
    MarkdownPreview,
    Diff,
}

impl SurfaceKind {
    pub open spec fn name(self) -> Seq<char> {
        match self {
            SurfaceKind::Empty => "EmptySurface"@,
            SurfaceKind::Terminal => "TerminalSurface"@,
            SurfaceKind::Agent => "AgentSurface"@,
            SurfaceKind::FileBrowser => "FileBrowserSurface"@,
            SurfaceKind::ImagePreview => "ImagePreviewSurface"@,
            SurfaceKind::MarkdownPreview => "MarkdownPreviewSurface"@,
            SurfaceKind::Diff => "DiffSurface"@,
        }
    }

    pub fn label(self) -> (label: &'static str)
        ensures
            label@ == self.name(),
    {
        match self {
            SurfaceKind::Empty => "EmptySurface",
            SurfaceKind::Terminal => "TerminalSurface",
            SurfaceKind::Agent => "AgentSurface",
            SurfaceKind::FileBrowser => "FileBrowserSurface",
            SurfaceKind::ImagePreview => "ImagePreviewSurface",
            SurfaceKind::MarkdownPreview => "MarkdownPreviewSurface",
            SurfaceKind::Diff => "DiffSurface",
        }
    }
}

/// What is drawn in a pane.
#[derive(Debug)]
pub enum PaneContent {
    /// The screen of its terminal.
    Screen,
    /// A line of text.
    Text(String),
}

/// What is drawn in a pane, by its values.
pub enum ContentView {
    Screen,
    Text(Seq<char>),
}

impl View for PaneContent {
    type V = ContentView;

    open spec fn view(&self) -> ContentView {
        match self {
            PaneContent::Screen => ContentView::Screen,
            PaneContent::Text(text) => ContentView::Text(text@),
        }
    }
}

/// A terminal shows its screen once there is one; what is no terminal shows
/// what it is.
pub open spec fn content_of(pane_id: PaneId, kind: SurfaceKind, has_screen: bool) -> ContentView {
    if kind == SurfaceKind::Terminal {
        if has_screen {
            ContentView::Screen
        } else {
            ContentView::Text("Starting terminal…"@)
        }
    } else {
        ContentView::Text("Pane "@ + decimal_text(pane_id.value as nat) + " · "@ + kind.name())
    }
}

pub fn pane_content(pane_id: PaneId, kind: SurfaceKind, has_screen: bool) -> (content: PaneContent)
    ensures
        content@ == content_of(pane_id, kind, has_screen),
{
    if kind == SurfaceKind::Terminal {
        if has_screen {
            PaneContent::Screen
        } else {
            PaneContent::Text("Starting terminal…".to_owned())
        }
    } else {
        let mut text = "Pane ".to_owned();
        push_decimal_text(&mut text, pane_id.value);
        text.append(" · ");
        text.append(kind.label());
        PaneContent::Text(text)
    }
}

/// A terminal's pane shows its screen once there is one; any other pane names its
/// number and its kind.
pub proof fn a_pane_shows_what_it_holds(pane_id: PaneId, kind: SurfaceKind)
    ensures
        content_of(pane_id, SurfaceKind::Terminal, true) == ContentView::Screen,
        content_of(pane_id, SurfaceKind::Terminal, false) == ContentView::Text(
            "Starting terminal…"@,
        ),
        kind != SurfaceKind::Terminal ==> content_of(pane_id, kind, true) == ContentView::Text(
            "Pane "@ + decimal_text(pane_id.value as nat) + " · "@ + kind.name(),
        ) && content_of(pane_id, kind, false) == content_of(pane_id, kind, true),
        SurfaceKind::Empty.name() == "EmptySurface"@,
        SurfaceKind::Terminal.name() == "TerminalSurface"@,
        SurfaceKind::Agent.name() == "AgentSurface"@,
        SurfaceKind::FileBrowser.name() == "FileBrowserSurface"@,
        SurfaceKind::ImagePreview.name() == "ImagePreviewSurface"@,
        SurfaceKind::MarkdownPreview.name() == "MarkdownPreviewSurface"@,
        SurfaceKind::Diff.name() == "DiffSurface"@,
{
}

} // verus!
