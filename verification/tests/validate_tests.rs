use pia::validate::{
    check_associate, check_core, check_filter, check_slic, check_weights, to_usize, Arg, CoreDims,
    InputError, SlicDims,
};

#[test]
fn to_usize_accepts_positive_only() {
    assert_eq!(to_usize(3, Arg::W), Ok(3));
    assert_eq!(to_usize(0, Arg::W), Err(InputError::NotPositive(Arg::W)));
    assert_eq!(to_usize(-5, Arg::HOut), Err(InputError::NotPositive(Arg::HOut)));
}

#[test]
fn check_core_accepts_consistent_arguments() {
    assert_eq!(
        check_core(3, 12, 4, 3, 2, 1, 8, 100, Some(12), true, true),
        Ok(CoreDims { w_in: 4, h_in: 3, w_out: 2, h_out: 1, palette_size: 8, max_iter: 100 })
    );
    assert!(check_core(3, 12, 4, 3, 2, 1, 8, 100, None, true, true).is_ok());
}

#[test]
fn check_core_reports_each_error() {
    assert_eq!(check_core(2, 12, 4, 3, 2, 1, 8, 100, None, true, true), Err(InputError::NotThreeColumns(Arg::Lab)));
    assert_eq!(check_core(3, 12, 0, 3, 2, 1, 8, 100, None, true, true), Err(InputError::NotPositive(Arg::WIn)));
    assert_eq!(check_core(3, 12, 4, 0, 2, 1, 8, 100, None, true, true), Err(InputError::NotPositive(Arg::HIn)));
    assert_eq!(check_core(3, 12, 4, 3, 0, 1, 8, 100, None, true, true), Err(InputError::NotPositive(Arg::WOut)));
    assert_eq!(check_core(3, 12, 4, 3, 2, 0, 8, 100, None, true, true), Err(InputError::NotPositive(Arg::HOut)));
    assert_eq!(check_core(3, 12, 4, 3, 2, 1, 0, 100, None, true, true), Err(InputError::NotPositive(Arg::PaletteSize)));
    assert_eq!(check_core(3, 12, 4, 3, 2, 1, 8, 0, None, true, true), Err(InputError::NotPositive(Arg::MaxIter)));
    assert_eq!(check_core(3, 11, 4, 3, 2, 1, 8, 100, None, true, true), Err(InputError::LabRows));
    assert_eq!(check_core(3, 12, 4, 3, 2, 1, 8, 100, Some(11), true, true), Err(InputError::ImportanceLength));
    // the first failing check wins
    assert_eq!(check_core(1, 0, 0, 0, 0, 0, 0, 0, Some(1), true, true), Err(InputError::NotThreeColumns(Arg::Lab)));
}

#[test]
fn check_slic_checks_in_order() {
    assert_eq!(
        check_slic(3, 32, 3, 2, 8, 4, 2, 1, 2, 2),
        Ok(SlicDims { w_in: 8, h_in: 4, w_out: 2, h_out: 1, n_out: 2 })
    );
    assert_eq!(check_slic(4, 32, 3, 2, 8, 4, 2, 1, 2, 2), Err(InputError::NotThreeColumns(Arg::Lab)));
    assert_eq!(check_slic(3, 32, 2, 2, 8, 4, 2, 1, 2, 2), Err(InputError::NotThreeColumns(Arg::Colors)));
    assert_eq!(check_slic(3, 31, 3, 2, 8, 4, 2, 1, 2, 2), Err(InputError::LabRows));
    assert_eq!(check_slic(3, 32, 3, 2, 8, 4, 2, 1, 1, 2), Err(InputError::CentersLength));
    assert_eq!(check_slic(3, 32, 3, 2, 8, 4, 2, 1, 2, 3), Err(InputError::CentersLength));
    assert_eq!(check_slic(3, 32, 3, 3, 8, 4, 2, 1, 2, 2), Err(InputError::CentersLength));
    assert_eq!(check_slic(3, 32, 3, 2, 8, 4, 2, -1, 2, 2), Err(InputError::NotPositive(Arg::HOut)));
}

#[test]
fn check_associate_errors() {
    assert_eq!(check_associate(3, 3, 4, 4, true), Ok(()));
    assert_eq!(check_associate(2, 3, 4, 4, true), Err(InputError::NotThreeColumns(Arg::Colors)));
    assert_eq!(check_associate(3, 2, 4, 4, true), Err(InputError::NotThreeColumns(Arg::Palette)));
    assert_eq!(check_associate(3, 3, 4, 5, true), Err(InputError::PaletteProbLength));
}

#[test]
fn check_filter_errors() {
    assert_eq!(check_filter(3, 12, 4, 3), Ok((4, 3)));
    assert_eq!(check_filter(1, 12, 4, 3), Err(InputError::NotThreeColumns(Arg::Colors)));
    assert_eq!(check_filter(3, 12, 0, 3), Err(InputError::NotPositive(Arg::W)));
    assert_eq!(check_filter(3, 12, 4, 0), Err(InputError::NotPositive(Arg::H)));
    assert_eq!(check_filter(3, 13, 4, 3), Err(InputError::ColorsRows));
}

#[test]
fn check_weights_errors() {
    assert_eq!(check_weights(3, 5, None), Ok(()));
    assert_eq!(check_weights(3, 5, Some(5)), Ok(()));
    assert_eq!(check_weights(3, 5, Some(4)), Err(InputError::WeightsLength));
    assert_eq!(check_weights(2, 5, None), Err(InputError::NotThreeColumns(Arg::Lab)));
}

#[test]
fn check_core_float_refusals_come_last() {
    assert_eq!(check_core(3, 12, 4, 3, 2, 1, 8, 100, None, false, true), Err(InputError::AlphaRange));
    assert_eq!(check_core(3, 12, 4, 3, 2, 1, 8, 100, None, true, false), Err(InputError::FinalTemperature));
    assert_eq!(check_core(3, 12, 4, 3, 2, 1, 8, 100, None, false, false), Err(InputError::AlphaRange));
    // integer checks come first
    assert_eq!(check_core(3, 11, 4, 3, 2, 1, 8, 100, None, false, false), Err(InputError::LabRows));
}

#[test]
fn check_associate_temperature() {
    assert_eq!(check_associate(3, 3, 4, 4, false), Err(InputError::Temperature));
    assert_eq!(check_associate(3, 3, 4, 5, false), Err(InputError::PaletteProbLength));
}

#[test]
fn error_messages() {
    assert_eq!(InputError::NotThreeColumns(Arg::Lab).message(), "`lab` must have exactly 3 columns (L, a, b).");
    assert_eq!(InputError::NotThreeColumns(Arg::Palette).message(), "`palette` must have exactly 3 columns (L, a, b).");
    assert_eq!(InputError::NotPositive(Arg::PaletteSize).message(), "`palette_size` must be a positive integer.");
    assert_eq!(InputError::NotPositive(Arg::WIn).message(), "`w_in` must be a positive integer.");
    assert_eq!(InputError::LabRows.message(), "`lab` must have `w_in * h_in` rows.");
    assert_eq!(InputError::ImportanceLength.message(), "`importance` must have one value per input pixel.");
    assert_eq!(InputError::WeightsLength.message(), "`weights` must have one value per row of `lab`.");
    assert_eq!(InputError::CentersLength.message(), "Centers and colors must have `w_out * h_out` entries.");
    assert_eq!(InputError::PaletteProbLength.message(), "`palette_prob` must have one value per palette row.");
    assert_eq!(InputError::ColorsRows.message(), "`colors` must have `w * h` rows.");
    assert_eq!(InputError::AlphaRange.message(), "`alpha` must be strictly between 0 and 1.");
    assert_eq!(InputError::FinalTemperature.message(), "`t_final` must be positive.");
    assert_eq!(InputError::Temperature.message(), "`temperature` must be positive.");
    assert_eq!(Arg::MaxIter.name(), "max_iter");
}
