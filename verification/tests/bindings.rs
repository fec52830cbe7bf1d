use mouse_configurator::{
    Binding, BindingRegistry, Category, Entry, HardwareButton, Op, PresetBinding, Profile,
    Value::Const,
};

fn small_registry() -> BindingRegistry {
    BindingRegistry {
        categories: vec![
            Category {
                label: "Mouse Controls".to_string(),
                entries: vec![
                    Entry {
                        id: PresetBinding::RightClick,
                        label: "Right Click".to_string(),
                        binding: vec![Op::mouse(true, Const(2), Const(0), Const(0), Const(0), Const(0))],
                        keybind: None,
                    },
                    Entry {
                        id: PresetBinding::Disabled,
                        label: "Disabled".to_string(),
                        binding: vec![Op::Kill],
                        keybind: None,
                    },
                ],
            },
            Category {
                label: "Media Controls".to_string(),
                entries: vec![Entry {
                    id: PresetBinding::PlayPause,
                    label: "Play / Pause".to_string(),
                    binding: vec![Op::media(true, vec![Const(0xCDu8 as i8)])],
                    keybind: None,
                }],
            },
        ],
    }
}

#[test]
fn entry_lookup_by_preset() {
    let reg = small_registry();
    let e = PresetBinding::PlayPause.entry(&reg).unwrap();
    assert_eq!(e.id, PresetBinding::PlayPause);
    assert_eq!(e.label, "Play / Pause");
    assert!(PresetBinding::ZoomIn.entry(&reg).is_none());
}

#[test]
fn entry_lookup_by_binding() {
    let reg = small_registry();
    let ops = vec![Op::mouse(true, Const(2), Const(0), Const(0), Const(0), Const(0))];
    let e = Entry::for_binding(&reg, &ops).unwrap();
    assert_eq!(e.id, PresetBinding::RightClick);
    let unknown = vec![Op::pause(Const(42))];
    assert!(Entry::for_binding(&reg, &unknown).is_none());
}

#[test]
fn binding_labels() {
    let reg = small_registry();
    assert_eq!(
        Binding::Preset(PresetBinding::RightClick).label(&reg),
        "Right Click"
    );
    assert_eq!(Binding::Unknown.label(&reg), "Unknown");
}

#[test]
fn registry_bindings_survive_the_codec() {
    let reg = small_registry();
    for category in &reg.categories {
        for entry in &category.entries {
            let decoded = mouse_configurator::codec::decode_action(
                &mouse_configurator::codec::encode_action(&entry.binding),
            )
            .unwrap();
            assert_eq!(decoded, entry.binding);
        }
    }
}

#[test]
fn hardware_buttons_enumerate_in_device_order() {
    let all = HardwareButton::iter();
    assert_eq!(all.len(), 7);
    for (i, b) in all.iter().enumerate() {
        assert_eq!(b.to_u8(), i as u8);
        assert_eq!(HardwareButton::from_u8(i as u8), Some(*b));
    }
    assert_eq!(HardwareButton::from_u8(7), None);
}

#[test]
fn default_bindings() {
    assert_eq!(
        HardwareButton::Right.def_binding(),
        PresetBinding::RightClick
    );
    assert_eq!(
        HardwareButton::LeftCenter.def_binding(),
        PresetBinding::SwitchApplications
    );
    assert_eq!(HardwareButton::LeftBottom.def_binding(), PresetBinding::Back);
}

#[test]
fn profile_stores_bindings_per_button() {
    let mut p = Profile::default();
    assert!(p.binding_for(HardwareButton::Right).is_none());
    p.set_binding(HardwareButton::Right, Binding::Preset(PresetBinding::Copy));
    p.set_binding(HardwareButton::Middle, Binding::Unknown);
    assert_eq!(
        p.binding_for(HardwareButton::Right),
        Some(&Binding::Preset(PresetBinding::Copy))
    );
    assert_eq!(p.binding_for(HardwareButton::Middle), Some(&Binding::Unknown));
    // replacing keeps one pair per button
    p.set_binding(HardwareButton::Right, Binding::Preset(PresetBinding::Paste));
    assert_eq!(
        p.binding_for(HardwareButton::Right),
        Some(&Binding::Preset(PresetBinding::Paste))
    );
    assert_eq!(p.bindings.len(), 2);
}
