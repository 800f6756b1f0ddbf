use mmr_history::epoch::{epoch_for, is_known, select_version, version_for, Epoch, TreeVersion};

#[test]
fn known_ids_name_their_epochs() {
    assert_eq!(epoch_for(0), Some(Epoch::Sprout));
    assert_eq!(epoch_for(0x5ba8_1b19), Some(Epoch::Overwinter));
    assert_eq!(epoch_for(0x76b8_09bb), Some(Epoch::Sapling));
    assert_eq!(epoch_for(0x2bb4_0e60), Some(Epoch::Blossom));
    assert_eq!(epoch_for(0xf5b9_230b), Some(Epoch::Heartwood));
    assert_eq!(epoch_for(0xe9ff_75a6), Some(Epoch::Canopy));
    assert_eq!(epoch_for(0xc2d6_d0b4), Some(Epoch::Nu5));
    assert_eq!(epoch_for(0xc8e7_1055), Some(Epoch::Nu6));
}

#[test]
fn unknown_id_names_no_epoch() {
    assert_eq!(epoch_for(1), None);
    assert!(!is_known(0xdead_beef));
}

#[test]
fn legacy_before_nu5_current_from_nu5() {
    assert_eq!(select_version(0xf5b9_230b), TreeVersion::Legacy);
    assert_eq!(select_version(0xe9ff_75a6), TreeVersion::Legacy);
    assert_eq!(select_version(0xc2d6_d0b4), TreeVersion::Current);
    assert_eq!(version_for(Epoch::Blossom), TreeVersion::Legacy);
    assert_eq!(select_version(0x2bb4_0e60), TreeVersion::Legacy);
    assert_eq!(version_for(Epoch::Canopy), TreeVersion::Legacy);
    assert_eq!(version_for(Epoch::Nu5), TreeVersion::Current);
    assert_eq!(version_for(Epoch::Nu7), TreeVersion::Current);
}
