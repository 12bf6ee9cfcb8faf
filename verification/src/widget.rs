//! What a screen is made of: the widgets the module asks the host to draw.
//!
//! The module decides what to show; drawing it is the host's part, and the
//! application hands these to the host's own widget builders.

use vstd::prelude::*;

verus! {

/// How a label is set.
#[derive(Clone, Copy, Debug, PartialEq, Eq, Structural)]
pub enum Style {
    Weak,
    Strong,
}

/// How urgent a notice over a screen is.
#[derive(Clone, Copy, Debug, PartialEq, Eq, Structural)]
pub enum Level {
    Error,
    Warning,
    Info,
    Success,
}

/// A call back into a module: which capability, and which method of it.
#[derive(Debug)]
pub struct Action {
    pub capability: String,
    pub method: String,
}

/// An action as plain text.
pub struct ActionV {
    pub capability: Seq<char>,
    pub method: Seq<char>,
}

impl View for Action {
    type V = ActionV;

    open spec fn view(&self) -> ActionV {
        ActionV { capability: self.capability@, method: self.method@ }
    }
}

/// A button: its caption, what pressing it calls, whether it is the screen's
/// main action, and whether what it calls opens in a tab of its own.
#[derive(Debug)]
pub struct Button {
    pub text: String,
    pub action: Action,
    pub primary: bool,
    pub open_in_tab: bool,
}

/// A button as plain values.
pub struct ButtonV {
    pub text: Seq<char>,
    pub action: ActionV,
    pub primary: bool,
    pub open_in_tab: bool,
}

impl View for Button {
    type V = ButtonV;

    open spec fn view(&self) -> ButtonV {
        ButtonV {
            text: self.text@,
            action: self.action@,
            primary: self.primary,
            open_in_tab: self.open_in_tab,
        }
    }
}

/// One element of a screen.
#[derive(Debug)]
pub enum Widget {
    Label { text: String, style: Style },
    Button(Button),
    Separator,
    Row(Vec<Button>),
    Table { columns: Vec<String>, rows: Vec<Vec<String>> },
    Step { text: String, state: String },
}

/// An element of a screen as plain values.
pub enum WidgetV {
    Label { text: Seq<char>, style: Style },
    Button(ButtonV),
    Separator,
    Row(Seq<ButtonV>),
    Table { columns: Seq<Seq<char>>, rows: Seq<Seq<Seq<char>>> },
    Step { text: Seq<char>, state: Seq<char> },
}

/// The views of a run of buttons.
pub open spec fn button_views(bs: Seq<Button>) -> Seq<ButtonV> {
    bs.map_values(|b: Button| b@)
}

impl View for Widget {
    type V = WidgetV;

    open spec fn view(&self) -> WidgetV {
        match self {
            Widget::Label { text, style } => WidgetV::Label { text: text@, style: *style },
            Widget::Button(b) => WidgetV::Button(b@),
            Widget::Separator => WidgetV::Separator,
            Widget::Row(bs) => WidgetV::Row(button_views(bs@)),
            Widget::Table { columns, rows } => WidgetV::Table {
                columns: columns.deep_view(),
                rows: rows.deep_view(),
            },
            Widget::Step { text, state } => WidgetV::Step { text: text@, state: state@ },
        }
    }
}

/// The views of a run of widgets.
pub open spec fn widget_views(ws: Seq<Widget>) -> Seq<WidgetV> {
    ws.map_values(|w: Widget| w@)
}

/// A pop-up: its identity, and how wide it is drawn.
#[derive(Debug)]
pub struct Modal {
    pub id: String,
    pub width: u32,
}

/// A line laid over a screen, saying how something went.
#[derive(Debug)]
pub struct Notice {
    pub level: Level,
    pub text: String,
}

/// A whole screen: its title, its widgets in order, whether it is a pop-up,
/// what it calls by itself to refresh, and any notice over it.
#[derive(Debug)]
pub struct Window {
    pub title: String,
    pub widgets: Vec<Widget>,
    pub modal: Option<Modal>,
    pub auto: Option<Action>,
    pub notice: Option<Notice>,
}

/// A pop-up as plain values.
pub struct ModalV {
    pub id: Seq<char>,
    pub width: u32,
}

/// A notice as plain values.
pub struct NoticeV {
    pub level: Level,
    pub text: Seq<char>,
}

/// A screen as plain values.
pub struct WindowV {
    pub title: Seq<char>,
    pub widgets: Seq<WidgetV>,
    pub modal: Option<ModalV>,
    pub auto: Option<ActionV>,
    pub notice: Option<NoticeV>,
}

impl View for Window {
    type V = WindowV;

    open spec fn view(&self) -> WindowV {
        WindowV {
            title: self.title@,
            widgets: widget_views(self.widgets@),
            modal: match self.modal {
                Some(m) => Some(ModalV { id: m.id@, width: m.width }),
                None => None,
            },
            auto: match self.auto {
                Some(a) => Some(a@),
                None => None,
            },
            notice: match self.notice {
                Some(n) => Some(NoticeV { level: n.level, text: n.text@ }),
                None => None,
            },
        }
    }
}

/// A plain screen: a title and its widgets, not a pop-up, no refresh, no
/// notice.
pub open spec fn plain_window(title: Seq<char>, widgets: Seq<WidgetV>) -> WindowV {
    WindowV { title, widgets, modal: None, auto: None, notice: None }
}

impl Window {
    /// A plain screen with the given title and widgets.
    pub fn new(title: String, widgets: Vec<Widget>) -> (r: Window)
        ensures
            r@ == plain_window(title@, widget_views(widgets@)),
    {
        Window { title, widgets, modal: None, auto: None, notice: None }
    }

    /// The same screen with a notice laid over it.
    pub fn with_notice(self, level: Level, text: String) -> (r: Window)
        ensures
            r@ == (WindowV { notice: Some(NoticeV { level, text: text@ }), ..self@ }),
    {
        Window { notice: Some(Notice { level, text }), ..self }
    }
}

} // verus!
