use nbt::stepsound::StepSound;

#[test]
fn try_from_maps_every_id() {
    assert_eq!(StepSound::try_from(0), Ok(StepSound::Powder));
    assert_eq!(StepSound::try_from(1), Ok(StepSound::Wood));
    assert_eq!(StepSound::try_from(2), Ok(StepSound::Gravel));
    assert_eq!(StepSound::try_from(3), Ok(StepSound::Grass));
    assert_eq!(StepSound::try_from(4), Ok(StepSound::Stone));
    assert_eq!(StepSound::try_from(5), Ok(StepSound::Metal));
    assert_eq!(StepSound::try_from(6), Ok(StepSound::Glass));
    assert_eq!(StepSound::try_from(7), Ok(StepSound::Cloth));
    assert_eq!(StepSound::try_from(8), Ok(StepSound::Sand));
}

#[test]
fn try_from_rejects_out_of_range() {
    assert!(StepSound::try_from(9).is_err());
    assert!(StepSound::try_from(usize::MAX).is_err());
}
