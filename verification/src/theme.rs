//! The looks of the front end as plain values: a palette of named tones, and
//! for each kind of widget the tones it is drawn in, state by state.

use vstd::prelude::*;

verus! {

/// A tone of the palette.
#[derive(Debug, Clone, Copy, PartialEq, Eq, Structural)]
pub enum Tone {
    /// The deepest background.
    Base03,
    /// The background of panels.
    Base02,
    /// Secondary content.
    Base01,
    /// Content and frames.
    Base00,
    /// Body text.
    Base0,
    /// Emphasised content.
    Base1,
    /// A light background.
    Base2,
    /// The lightest background.
    Base3,
    Yellow,
    Orange,
    Red,
    Magenta,
    Violet,
    Blue,
    Cyan,
    Green,
}

/// Red, green and blue of a tone, each in thousandths of full intensity.
#[derive(Debug, Clone, Copy, PartialEq, Eq, Structural)]
pub struct Rgb {
    pub red: u16,
    pub green: u16,
    pub blue: u16,
}

impl Tone {
    /// The colour of the tone.
    pub open spec fn rgb(self) -> Rgb {
        match self {
            Tone::Base03 => Rgb { red: 0, green: 80, blue: 100 },
            Tone::Base02 => Rgb { red: 0, green: 125, blue: 150 },
            Tone::Base01 => Rgb { red: 345, green: 431, blue: 459 },
            Tone::Base00 => Rgb { red: 460, green: 550, blue: 580 },
            Tone::Base0 => Rgb { red: 670, green: 740, blue: 730 },
            Tone::Base1 => Rgb { red: 800, green: 850, blue: 850 },
            Tone::Base2 => Rgb { red: 933, green: 910, blue: 835 },
            Tone::Base3 => Rgb { red: 992, green: 965, blue: 890 },
            Tone::Yellow => Rgb { red: 940, green: 780, blue: 0 },
            Tone::Orange => Rgb { red: 1000, green: 370, blue: 0 },
            Tone::Red => Rgb { red: 1000, green: 200, blue: 200 },
            Tone::Magenta => Rgb { red: 1000, green: 200, blue: 800 },
            Tone::Violet => Rgb { red: 530, green: 530, blue: 1000 },
            Tone::Blue => Rgb { red: 0, green: 530, blue: 1000 },
            Tone::Cyan => Rgb { red: 0, green: 1000, blue: 800 },
            Tone::Green => Rgb { red: 200, green: 1000, blue: 0 },
        }
    }

    /// The colour of the tone. No channel goes beyond full intensity.
    pub fn color(&self) -> (color: Rgb)
        ensures
            color == self.rgb(),
            color.red <= 1000 && color.green <= 1000 && color.blue <= 1000,
    {
        match self {
            Tone::Base03 => Rgb { red: 0, green: 80, blue: 100 },
            Tone::Base02 => Rgb { red: 0, green: 125, blue: 150 },
            Tone::Base01 => Rgb { red: 345, green: 431, blue: 459 },
            Tone::Base00 => Rgb { red: 460, green: 550, blue: 580 },
            Tone::Base0 => Rgb { red: 670, green: 740, blue: 730 },
            Tone::Base1 => Rgb { red: 800, green: 850, blue: 850 },
            Tone::Base2 => Rgb { red: 933, green: 910, blue: 835 },
            Tone::Base3 => Rgb { red: 992, green: 965, blue: 890 },
            Tone::Yellow => Rgb { red: 940, green: 780, blue: 0 },
            Tone::Orange => Rgb { red: 1000, green: 370, blue: 0 },
            Tone::Red => Rgb { red: 1000, green: 200, blue: 200 },
            Tone::Magenta => Rgb { red: 1000, green: 200, blue: 800 },
            Tone::Violet => Rgb { red: 530, green: 530, blue: 1000 },
            Tone::Blue => Rgb { red: 0, green: 530, blue: 1000 },
            Tone::Cyan => Rgb { red: 0, green: 1000, blue: 800 },
            Tone::Green => Rgb { red: 200, green: 1000, blue: 0 },
        }
    }
}

/// The state in which a widget is drawn.
#[derive(Debug, Clone, Copy, PartialEq, Eq, Structural)]
pub enum Phase {
    Active,
    Focused,
    Hovered,
    Pressed,
    Dragging,
    Disabled,
}

/// How a widget is drawn in one state.
#[derive(Debug, Clone, Copy, PartialEq, Eq, Structural)]
pub struct Look {
    /// The tone of the background; `None` for a background that lets through
    /// what lies behind.
    pub fill: Option<Tone>,
    /// The tone of text, icons and handles.
    pub ink: Tone,
    /// The tone of the frame; `None` for no frame.
    pub edge: Option<Tone>,
    /// The width of the frame in tenths of a pixel.
    pub edge_tenths: u8,
}

impl Look {
    /// What is drawn in ink can be told from the background.
    pub open spec fn legible(self) -> bool {
        self.fill != Some(self.ink)
    }
}

/// The tones of the text in an input field.
#[derive(Debug, Clone, Copy, PartialEq, Eq, Structural)]
pub struct TextTones {
    pub placeholder: Tone,
    pub value: Tone,
    pub disabled: Tone,
    pub selection: Tone,
}

/// The tones of the text in every input field.
pub open spec fn input_text_tones() -> TextTones {
    TextTones {
        placeholder: Tone::Base01,
        value: Tone::Base1,
        disabled: Tone::Base01,
        selection: Tone::Base01,
    }
}

/// The tones of the entry of a menu that the pointer is on: text and
/// background.
pub open spec fn menu_selected_tones() -> (Tone, Tone) {
    (Tone::Base03, Tone::Cyan)
}

/// An input field without a frame, for use inside an [`InputGroup`].
#[derive(Debug, Clone, Copy, PartialEq, Eq, Structural)]
pub struct BorderlessInput;

impl BorderlessInput {
    /// The look in the state `phase`.
    pub open spec fn look_in(phase: Phase) -> Look {
        match phase {
            Phase::Disabled => Look { fill: None, ink: Tone::Base01, edge: None, edge_tenths: 0 },
            _ => Look { fill: None, ink: Tone::Base0, edge: None, edge_tenths: 0 },
        }
    }

    /// The look in the state `phase`; a state that the widget does not know is
    /// drawn as the active one.
    pub fn look(&self, phase: Phase) -> (look: Look)
        ensures
            look == Self::look_in(phase),
            look.legible(),
    {
        match phase {
            Phase::Disabled => Look { fill: None, ink: Tone::Base01, edge: None, edge_tenths: 0 },
            _ => Look { fill: None, ink: Tone::Base0, edge: None, edge_tenths: 0 },
        }
    }

    /// The tones of the text in the field.
    pub fn text_tones(&self) -> (tones: TextTones)
        ensures
            tones == input_text_tones(),
    {
        TextTones {
            placeholder: Tone::Base01,
            value: Tone::Base1,
            disabled: Tone::Base01,
            selection: Tone::Base01,
        }
    }
}

/// The frame around a labelled input.
#[derive(Debug, Clone, Copy, PartialEq, Eq, Structural)]
pub struct InputGroup;

impl InputGroup {
    /// The look in the state `phase`.
    pub open spec fn look_in(phase: Phase) -> Look {
        Look { fill: Some(Tone::Base02), ink: Tone::Base0, edge: Some(Tone::Base00), edge_tenths: 10 }
    }

    /// The look in the state `phase`; a state that the widget does not know is
    /// drawn as the active one.
    pub fn look(&self, phase: Phase) -> (look: Look)
        ensures
            look == Self::look_in(phase),
            look.legible(),
    {
        Look { fill: Some(Tone::Base02), ink: Tone::Base0, edge: Some(Tone::Base00), edge_tenths: 10 }
    }
}

/// The background of the whole window.
#[derive(Debug, Clone, Copy, PartialEq, Eq, Structural)]
pub struct MainBg;

impl MainBg {
    /// The look in the state `phase`.
    pub open spec fn look_in(phase: Phase) -> Look {
        Look { fill: Some(Tone::Base03), ink: Tone::Base0, edge: None, edge_tenths: 0 }
    }

    /// The look in the state `phase`; a state that the widget does not know is
    /// drawn as the active one.
    pub fn look(&self, phase: Phase) -> (look: Look)
        ensures
            look == Self::look_in(phase),
            look.legible(),
    {
        Look { fill: Some(Tone::Base03), ink: Tone::Base0, edge: None, edge_tenths: 0 }
    }
}

/// A panel of the window.
#[derive(Debug, Clone, Copy, PartialEq, Eq, Structural)]
pub struct Panel;

impl Panel {
    /// The look in the state `phase`.
    pub open spec fn look_in(phase: Phase) -> Look {
        Look { fill: Some(Tone::Base02), ink: Tone::Base0, edge: Some(Tone::Base00), edge_tenths: 10 }
    }

    /// The look in the state `phase`; a state that the widget does not know is
    /// drawn as the active one.
    pub fn look(&self, phase: Phase) -> (look: Look)
        ensures
            look == Self::look_in(phase),
            look.legible(),
    {
        Look { fill: Some(Tone::Base02), ink: Tone::Base0, edge: Some(Tone::Base00), edge_tenths: 10 }
    }
}

/// A panel set off by a bright frame.
#[derive(Debug, Clone, Copy, PartialEq, Eq, Structural)]
pub struct BorderedPanel;

impl BorderedPanel {
    /// The look in the state `phase`.
    pub open spec fn look_in(phase: Phase) -> Look {
        Look { fill: Some(Tone::Base03), ink: Tone::Base0, edge: Some(Tone::Blue), edge_tenths: 10 }
    }

    /// The look in the state `phase`; a state that the widget does not know is
    /// drawn as the active one.
    pub fn look(&self, phase: Phase) -> (look: Look)
        ensures
            look == Self::look_in(phase),
            look.legible(),
    {
        Look { fill: Some(Tone::Base03), ink: Tone::Base0, edge: Some(Tone::Blue), edge_tenths: 10 }
    }
}

/// A framed input field.
#[derive(Debug, Clone, Copy, PartialEq, Eq, Structural)]
pub struct TextInput;

impl TextInput {
    /// The look in the state `phase`.
    pub open spec fn look_in(phase: Phase) -> Look {
        match phase {
            Phase::Focused => Look { fill: Some(Tone::Base02), ink: Tone::Base0, edge: Some(Tone::Cyan), edge_tenths: 15 },
            Phase::Hovered => Look { fill: Some(Tone::Base02), ink: Tone::Base0, edge: Some(Tone::Base1), edge_tenths: 10 },
            Phase::Disabled => Look { fill: Some(Tone::Base03), ink: Tone::Base01, edge: Some(Tone::Base00), edge_tenths: 10 },
            _ => Look { fill: Some(Tone::Base02), ink: Tone::Base0, edge: Some(Tone::Base00), edge_tenths: 10 },
        }
    }

    /// The look in the state `phase`; a state that the widget does not know is
    /// drawn as the active one.
    pub fn look(&self, phase: Phase) -> (look: Look)
        ensures
            look == Self::look_in(phase),
            look.legible(),
    {
        match phase {
            Phase::Focused => Look { fill: Some(Tone::Base02), ink: Tone::Base0, edge: Some(Tone::Cyan), edge_tenths: 15 },
            Phase::Hovered => Look { fill: Some(Tone::Base02), ink: Tone::Base0, edge: Some(Tone::Base1), edge_tenths: 10 },
            Phase::Disabled => Look { fill: Some(Tone::Base03), ink: Tone::Base01, edge: Some(Tone::Base00), edge_tenths: 10 },
            _ => Look { fill: Some(Tone::Base02), ink: Tone::Base0, edge: Some(Tone::Base00), edge_tenths: 10 },
        }
    }

    /// The tones of the text in the field.
    pub fn text_tones(&self) -> (tones: TextTones)
        ensures
            tones == input_text_tones(),
    {
        TextTones {
            placeholder: Tone::Base01,
            value: Tone::Base1,
            disabled: Tone::Base01,
            selection: Tone::Base01,
        }
    }
}

/// An ordinary button.
#[derive(Debug, Clone, Copy, PartialEq, Eq, Structural)]
pub struct Button;

impl Button {
    /// The look in the state `phase`.
    pub open spec fn look_in(phase: Phase) -> Look {
        match phase {
            Phase::Hovered => Look { fill: Some(Tone::Base01), ink: Tone::Base3, edge: Some(Tone::Cyan), edge_tenths: 10 },
            Phase::Pressed => Look { fill: Some(Tone::Base03), ink: Tone::Cyan, edge: Some(Tone::Base00), edge_tenths: 10 },
            Phase::Disabled => Look { fill: Some(Tone::Base03), ink: Tone::Base01, edge: Some(Tone::Base02), edge_tenths: 10 },
            _ => Look { fill: Some(Tone::Base02), ink: Tone::Base0, edge: Some(Tone::Base00), edge_tenths: 10 },
        }
    }

    /// The look in the state `phase`; a state that the widget does not know is
    /// drawn as the active one.
    pub fn look(&self, phase: Phase) -> (look: Look)
        ensures
            look == Self::look_in(phase),
            look.legible(),
    {
        match phase {
            Phase::Hovered => Look { fill: Some(Tone::Base01), ink: Tone::Base3, edge: Some(Tone::Cyan), edge_tenths: 10 },
            Phase::Pressed => Look { fill: Some(Tone::Base03), ink: Tone::Cyan, edge: Some(Tone::Base00), edge_tenths: 10 },
            Phase::Disabled => Look { fill: Some(Tone::Base03), ink: Tone::Base01, edge: Some(Tone::Base02), edge_tenths: 10 },
            _ => Look { fill: Some(Tone::Base02), ink: Tone::Base0, edge: Some(Tone::Base00), edge_tenths: 10 },
        }
    }
}

/// The button of the main action.
#[derive(Debug, Clone, Copy, PartialEq, Eq, Structural)]
pub struct PrimaryButton;

impl PrimaryButton {
    /// The look in the state `phase`.
    pub open spec fn look_in(phase: Phase) -> Look {
        match phase {
            Phase::Hovered => Look { fill: Some(Tone::Cyan), ink: Tone::Base03, edge: Some(Tone::Cyan), edge_tenths: 10 },
            Phase::Pressed => Look { fill: Some(Tone::Base03), ink: Tone::Cyan, edge: Some(Tone::Blue), edge_tenths: 10 },
            Phase::Disabled => Look { fill: Some(Tone::Base02), ink: Tone::Base01, edge: Some(Tone::Cyan), edge_tenths: 10 },
            _ => Look { fill: Some(Tone::Blue), ink: Tone::Base03, edge: Some(Tone::Cyan), edge_tenths: 10 },
        }
    }

    /// The look in the state `phase`; a state that the widget does not know is
    /// drawn as the active one.
    pub fn look(&self, phase: Phase) -> (look: Look)
        ensures
            look == Self::look_in(phase),
            look.legible(),
    {
        match phase {
            Phase::Hovered => Look { fill: Some(Tone::Cyan), ink: Tone::Base03, edge: Some(Tone::Cyan), edge_tenths: 10 },
            Phase::Pressed => Look { fill: Some(Tone::Base03), ink: Tone::Cyan, edge: Some(Tone::Blue), edge_tenths: 10 },
            Phase::Disabled => Look { fill: Some(Tone::Base02), ink: Tone::Base01, edge: Some(Tone::Cyan), edge_tenths: 10 },
            _ => Look { fill: Some(Tone::Blue), ink: Tone::Base03, edge: Some(Tone::Cyan), edge_tenths: 10 },
        }
    }
}

/// A scroll bar: the fill is the track, the ink is the scroller.
#[derive(Debug, Clone, Copy, PartialEq, Eq, Structural)]
pub struct Scrollable;

impl Scrollable {
    /// The look in the state `phase`.
    pub open spec fn look_in(phase: Phase) -> Look {
        match phase {
            Phase::Hovered => Look { fill: Some(Tone::Base02), ink: Tone::Blue, edge: Some(Tone::Base01), edge_tenths: 0 },
            Phase::Dragging => Look { fill: Some(Tone::Base02), ink: Tone::Cyan, edge: Some(Tone::Base01), edge_tenths: 0 },
            _ => Look { fill: Some(Tone::Base02), ink: Tone::Base00, edge: Some(Tone::Base01), edge_tenths: 0 },
        }
    }

    /// The look in the state `phase`; a state that the widget does not know is
    /// drawn as the active one.
    pub fn look(&self, phase: Phase) -> (look: Look)
        ensures
            look == Self::look_in(phase),
            look.legible(),
    {
        match phase {
            Phase::Hovered => Look { fill: Some(Tone::Base02), ink: Tone::Blue, edge: Some(Tone::Base01), edge_tenths: 0 },
            Phase::Dragging => Look { fill: Some(Tone::Base02), ink: Tone::Cyan, edge: Some(Tone::Base01), edge_tenths: 0 },
            _ => Look { fill: Some(Tone::Base02), ink: Tone::Base00, edge: Some(Tone::Base01), edge_tenths: 0 },
        }
    }
}

/// A pick list when closed.
#[derive(Debug, Clone, Copy, PartialEq, Eq, Structural)]
pub struct PickList;

impl PickList {
    /// The look in the state `phase`.
    pub open spec fn look_in(phase: Phase) -> Look {
        match phase {
            Phase::Hovered => Look { fill: Some(Tone::Base02), ink: Tone::Base0, edge: Some(Tone::Cyan), edge_tenths: 10 },
            _ => Look { fill: Some(Tone::Base02), ink: Tone::Base0, edge: Some(Tone::Base00), edge_tenths: 10 },
        }
    }

    /// The look in the state `phase`; a state that the widget does not know is
    /// drawn as the active one.
    pub fn look(&self, phase: Phase) -> (look: Look)
        ensures
            look == Self::look_in(phase),
            look.legible(),
    {
        match phase {
            Phase::Hovered => Look { fill: Some(Tone::Base02), ink: Tone::Base0, edge: Some(Tone::Cyan), edge_tenths: 10 },
            _ => Look { fill: Some(Tone::Base02), ink: Tone::Base0, edge: Some(Tone::Base00), edge_tenths: 10 },
        }
    }
}

/// The open menu of a pick list.
#[derive(Debug, Clone, Copy, PartialEq, Eq, Structural)]
pub struct Menu;

impl Menu {
    /// The look in the state `phase`.
    pub open spec fn look_in(phase: Phase) -> Look {
        Look { fill: Some(Tone::Base02), ink: Tone::Base0, edge: Some(Tone::Blue), edge_tenths: 10 }
    }

    /// The look in the state `phase`; a state that the widget does not know is
    /// drawn as the active one.
    pub fn look(&self, phase: Phase) -> (look: Look)
        ensures
            look == Self::look_in(phase),
            look.legible(),
    {
        Look { fill: Some(Tone::Base02), ink: Tone::Base0, edge: Some(Tone::Blue), edge_tenths: 10 }
    }

    /// The tones of the entry that the pointer is on: text and background.
    pub fn selected(&self) -> (tones: (Tone, Tone))
        ensures
            tones == menu_selected_tones(),
            tones.0 != tones.1,
    {
        (Tone::Base03, Tone::Cyan)
    }
}

} // verus!
