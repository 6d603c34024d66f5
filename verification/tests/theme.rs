use presence::theme::{
    BorderedPanel, BorderlessInput, Button, InputGroup, Look, MainBg, Menu, Panel, Phase, PickList,
    PrimaryButton, Rgb, Scrollable, TextInput, Tone,
};

const PHASES: [Phase; 6] =
    [Phase::Active, Phase::Focused, Phase::Hovered, Phase::Pressed, Phase::Dragging, Phase::Disabled];

#[test]
fn tones_have_their_colours() {
    assert_eq!(Tone::Base03.color(), Rgb { red: 0, green: 80, blue: 100 });
    assert_eq!(Tone::Base01.color(), Rgb { red: 345, green: 431, blue: 459 });
    assert_eq!(Tone::Cyan.color(), Rgb { red: 0, green: 1000, blue: 800 });
    assert_eq!(Tone::Green.color(), Rgb { red: 200, green: 1000, blue: 0 });
}

#[test]
fn thousandths_give_the_intended_fractions() {
    let color = Tone::Base01.color();
    assert_eq!(color.red as f32 / 1000.0, 0.345f32);
    assert_eq!(color.green as f32 / 1000.0, 0.431f32);
    assert_eq!(color.blue as f32 / 1000.0, 0.459f32);
}

#[test]
fn panels_look_the_same_in_every_state() {
    for phase in PHASES {
        assert_eq!(
            Panel.look(phase),
            Look { fill: Some(Tone::Base02), ink: Tone::Base0, edge: Some(Tone::Base00), edge_tenths: 10 }
        );
        assert_eq!(Panel.look(phase), InputGroup.look(phase));
        assert_eq!(MainBg.look(phase).edge, None);
        assert_eq!(BorderedPanel.look(phase).edge, Some(Tone::Blue));
        assert_eq!(Menu.look(phase).edge, Some(Tone::Blue));
    }
    assert_eq!(Menu.selected(), (Tone::Base03, Tone::Cyan));
}

#[test]
fn buttons_change_with_their_state() {
    assert_eq!(
        Button.look(Phase::Hovered),
        Look { fill: Some(Tone::Base01), ink: Tone::Base3, edge: Some(Tone::Cyan), edge_tenths: 10 }
    );
    assert_eq!(Button.look(Phase::Focused), Button.look(Phase::Active));
    assert_eq!(PrimaryButton.look(Phase::Active).fill, Some(Tone::Blue));
    assert_eq!(PrimaryButton.look(Phase::Pressed).edge, Some(Tone::Blue));
    assert_eq!(PrimaryButton.look(Phase::Disabled).ink, Tone::Base01);
}

#[test]
fn inputs_change_with_their_state() {
    assert_eq!(TextInput.look(Phase::Focused).edge_tenths, 15);
    assert_eq!(TextInput.look(Phase::Focused).edge, Some(Tone::Cyan));
    assert_eq!(TextInput.look(Phase::Hovered).edge, Some(Tone::Base1));
    assert_eq!(TextInput.look(Phase::Disabled).fill, Some(Tone::Base03));
    assert_eq!(BorderlessInput.look(Phase::Active).fill, None);
    assert_eq!(BorderlessInput.look(Phase::Disabled).ink, Tone::Base01);
    assert_eq!(TextInput.text_tones(), BorderlessInput.text_tones());
    assert_eq!(TextInput.text_tones().value, Tone::Base1);
    assert_eq!(PickList.look(Phase::Hovered).edge, Some(Tone::Cyan));
    assert_eq!(Scrollable.look(Phase::Dragging).ink, Tone::Cyan);
    assert_eq!(Scrollable.look(Phase::Hovered).ink, Tone::Blue);
}

#[test]
fn ink_is_never_the_tone_of_the_background() {
    for phase in PHASES {
        let looks = [
            BorderlessInput.look(phase),
            InputGroup.look(phase),
            MainBg.look(phase),
            Panel.look(phase),
            BorderedPanel.look(phase),
            TextInput.look(phase),
            Button.look(phase),
            PrimaryButton.look(phase),
            Scrollable.look(phase),
            PickList.look(phase),
            Menu.look(phase),
        ];
        for look in looks {
            assert_ne!(look.fill, Some(look.ink));
        }
    }
}
