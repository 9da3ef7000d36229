use nbt::material::Material;

#[test]
fn test_get() {
    let tnt = Material::Tnt.get();

    assert!(tnt.can_burn());
}

#[test]
fn liquid_flags() {
    let water = Material::Water.get();

    assert!(!water.can_burn());
    assert!(water.func_217_d());
    assert!(!water.func_216_a());
    assert!(water.func_219_b());
    assert!(!water.func_218_c());
}

#[test]
fn default_flags() {
    let rock = Material::Rock.get();

    assert!(!rock.can_burn());
    assert!(!rock.func_217_d());
    assert!(rock.func_216_a());
    assert!(rock.func_219_b());
    assert!(rock.func_218_c());
}

#[test]
fn transparent_flags() {
    let air = Material::Air.get();

    assert!(!air.func_216_a());
    assert!(!air.func_219_b());
    assert!(!air.func_218_c());
}
