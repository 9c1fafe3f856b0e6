//! Checks of the arguments handed over from R, in the order in which the
//! entry points make them, with the error each failing check reports.

use vstd::prelude::*;

verus! {

/// The argument an error is about.
#[derive(Clone, Copy, Debug, PartialEq, Eq, Structural)]
pub enum Arg {
    Lab,
    Colors,
    Palette,
    WIn,
    HIn,
    WOut,
    HOut,
    PaletteSize,
    MaxIter,
    W,
    H,
}

/// Why the arguments of an entry point were refused.
#[derive(Clone, Copy, Debug, PartialEq, Eq, Structural)]
pub enum InputError {
    /// A color matrix does not have exactly the three columns L, a, b.
    NotThreeColumns(Arg),
    /// A size or count is not a positive integer.
    NotPositive(Arg),
    /// `lab` does not have `w_in * h_in` rows.
    LabRows,
    /// `importance` does not have one value per input pixel.
    ImportanceLength,
    /// `weights` does not have one value per row of `lab`.
    WeightsLength,
    /// Centers and colors do not have `w_out * h_out` entries.
    CentersLength,
    /// `palette_prob` does not have one value per palette row.
    PaletteProbLength,
    /// `colors` does not have `w * h` rows.
    ColorsRows,
    /// `alpha` is not strictly between 0 and 1.
    AlphaRange,
    /// `t_final` is not positive.
    FinalTemperature,
    /// `temperature` is not positive.
    Temperature,
}

/// The count `v` as a `usize`, when it is a positive integer.
pub open spec fn spec_positive(v: i32) -> Option<usize> {
    if v < 1 {
        None
    } else {
        Some(v as usize)
    }
}

/// A positive integer argument as a count, or the error naming `arg`.
pub fn to_usize(v: i32, arg: Arg) -> (r: Result<usize, InputError>)
    ensures
        r == match spec_positive(v) {
            Some(u) => Ok(u),
            None => Err(InputError::NotPositive(arg)),
        },
        r matches Ok(u) ==> u == v && u >= 1,
        r is Ok <==> v >= 1,
        r is Err ==> r == Err::<usize, InputError>(InputError::NotPositive(arg)),
{
    if v < 1 {
        Err(InputError::NotPositive(arg))
    } else {
        Ok(v as usize)
    }
}

/// `a * b`, or `None` when the product does not fit in a `usize`.
fn checked_product(a: usize, b: usize) -> (p: Option<usize>)
    ensures
        p matches Some(v) ==> v == a * b,
        p is None ==> a * b > usize::MAX,
{
    a.checked_mul(b)
}

/// The sizes of a pixelation run.
#[derive(Clone, Copy, Debug, PartialEq, Eq, Structural)]
pub struct CoreDims {
    pub w_in: usize,
    pub h_in: usize,
    pub w_out: usize,
    pub h_out: usize,
    pub palette_size: usize,
    pub max_iter: usize,
}

/// The checks of the pixelation entry point, in order. `alpha_in_range`
/// tells whether `alpha` lies strictly between 0 and 1, `t_final_positive`
/// whether `t_final` is positive.
pub open spec fn spec_core_check(
    lab_ncols: usize,
    lab_nrows: usize,
    w_in: i32,
    h_in: i32,
    w_out: i32,
    h_out: i32,
    palette_size: i32,
    max_iter: i32,
    importance_len: Option<usize>,
    alpha_in_range: bool,
    t_final_positive: bool,
) -> Result<CoreDims, InputError> {
    if lab_ncols != 3 {
        Err(InputError::NotThreeColumns(Arg::Lab))
    } else if w_in < 1 {
        Err(InputError::NotPositive(Arg::WIn))
    } else if h_in < 1 {
        Err(InputError::NotPositive(Arg::HIn))
    } else if w_out < 1 {
        Err(InputError::NotPositive(Arg::WOut))
    } else if h_out < 1 {
        Err(InputError::NotPositive(Arg::HOut))
    } else if palette_size < 1 {
        Err(InputError::NotPositive(Arg::PaletteSize))
    } else if max_iter < 1 {
        Err(InputError::NotPositive(Arg::MaxIter))
    } else if lab_nrows != w_in * h_in {
        Err(InputError::LabRows)
    } else if importance_len matches Some(l) && l != lab_nrows {
        Err(InputError::ImportanceLength)
    } else if !alpha_in_range {
        Err(InputError::AlphaRange)
    } else if !t_final_positive {
        Err(InputError::FinalTemperature)
    } else {
        Ok(
            CoreDims {
                w_in: w_in as usize,
                h_in: h_in as usize,
                w_out: w_out as usize,
                h_out: h_out as usize,
                palette_size: palette_size as usize,
                max_iter: max_iter as usize,
            },
        )
    }
}

/// A pixelation run is accepted exactly when `lab` has three columns and
/// `w_in * h_in` rows, every size is positive, an importance map has one
/// value per pixel, `alpha` lies in (0, 1) and `t_final` is positive; the
/// sizes are handed on unchanged; and a wrong row count is reported as such
/// once the column and size checks pass, whether there are too many rows or
/// too few.
pub proof fn lemma_core_check_exact(
    lab_ncols: usize,
    lab_nrows: usize,
    w_in: i32,
    h_in: i32,
    w_out: i32,
    h_out: i32,
    palette_size: i32,
    max_iter: i32,
    importance_len: Option<usize>,
    alpha_in_range: bool,
    t_final_positive: bool,
)
    ensures
        spec_core_check(lab_ncols, lab_nrows, w_in, h_in, w_out, h_out, palette_size, max_iter, importance_len, alpha_in_range, t_final_positive) is Ok <==> (
            lab_ncols == 3 && w_in >= 1 && h_in >= 1 && w_out >= 1 && h_out >= 1 && palette_size >= 1 && max_iter >= 1
            && lab_nrows == w_in * h_in
            && (match importance_len { Some(l) => l == lab_nrows, None => true })
            && alpha_in_range && t_final_positive
        ),
        spec_core_check(lab_ncols, lab_nrows, w_in, h_in, w_out, h_out, palette_size, max_iter, importance_len, alpha_in_range, t_final_positive) matches Ok(d) ==> (
            d.w_in == w_in && d.h_in == h_in && d.w_out == w_out && d.h_out == h_out
            && d.palette_size == palette_size && d.max_iter == max_iter
        ),
        spec_core_check(lab_ncols, lab_nrows, w_in, h_in, w_out, h_out, palette_size, max_iter, importance_len, alpha_in_range, t_final_positive) == Err::<CoreDims, InputError>(InputError::LabRows) <==> (
            lab_ncols == 3 && w_in >= 1 && h_in >= 1 && w_out >= 1 && h_out >= 1 && palette_size >= 1 && max_iter >= 1 && lab_nrows != w_in * h_in
        ),
        spec_core_check(lab_ncols, lab_nrows, w_in, h_in, w_out, h_out, palette_size, max_iter, importance_len, alpha_in_range, t_final_positive) == Err::<CoreDims, InputError>(InputError::ImportanceLength) <==> (
            lab_ncols == 3 && w_in >= 1 && h_in >= 1 && w_out >= 1 && h_out >= 1 && palette_size >= 1 && max_iter >= 1 && lab_nrows == w_in * h_in
            && (match importance_len { Some(l) => l != lab_nrows, None => false })
        ),
{
}

/// Check the arguments of a pixelation run: `lab` has three columns and
/// `w_in * h_in` rows, every size is positive, an importance map, if any,
/// has one value per input pixel, `alpha` lies strictly between 0 and 1 and
/// `t_final` is positive (the last two as found by the caller).
pub fn check_core(
    lab_ncols: usize,
    lab_nrows: usize,
    w_in: i32,
    h_in: i32,
    w_out: i32,
    h_out: i32,
    palette_size: i32,
    max_iter: i32,
    importance_len: Option<usize>,
    alpha_in_range: bool,
    t_final_positive: bool,
) -> (r: Result<CoreDims, InputError>)
    ensures
        r == spec_core_check(
            lab_ncols,
            lab_nrows,
            w_in,
            h_in,
            w_out,
            h_out,
            palette_size,
            max_iter,
            importance_len,
            alpha_in_range,
            t_final_positive,
        ),
        r is Ok <==> (
            lab_ncols == 3 && w_in >= 1 && h_in >= 1 && w_out >= 1 && h_out >= 1 && palette_size >= 1 && max_iter >= 1
            && lab_nrows == w_in * h_in
            && (match importance_len { Some(l) => l == lab_nrows, None => true })
            && alpha_in_range && t_final_positive
        ),
        r matches Ok(d) ==> (
            d.w_in == w_in && d.h_in == h_in && d.w_out == w_out && d.h_out == h_out
            && d.palette_size == palette_size && d.max_iter == max_iter
        ),
        r == Err::<CoreDims, InputError>(InputError::LabRows) <==> (
            lab_ncols == 3 && w_in >= 1 && h_in >= 1 && w_out >= 1 && h_out >= 1 && palette_size >= 1 && max_iter >= 1 && lab_nrows != w_in * h_in
        ),
        r == Err::<CoreDims, InputError>(InputError::ImportanceLength) <==> (
            lab_ncols == 3 && w_in >= 1 && h_in >= 1 && w_out >= 1 && h_out >= 1 && palette_size >= 1 && max_iter >= 1 && lab_nrows == w_in * h_in
            && (match importance_len { Some(l) => l != lab_nrows, None => false })
        ),
{
    proof {
        lemma_core_check_exact(lab_ncols, lab_nrows, w_in, h_in, w_out, h_out, palette_size, max_iter, importance_len, alpha_in_range, t_final_positive);
    }
    if lab_ncols != 3 {
        return Err(InputError::NotThreeColumns(Arg::Lab));
    }
    let w_in = to_usize(w_in, Arg::WIn)?;
    let h_in = to_usize(h_in, Arg::HIn)?;
    let w_out = to_usize(w_out, Arg::WOut)?;
    let h_out = to_usize(h_out, Arg::HOut)?;
    let palette_size = to_usize(palette_size, Arg::PaletteSize)?;
    let max_iter = to_usize(max_iter, Arg::MaxIter)?;
    match checked_product(w_in, h_in) {
        Some(n) => {
            if n != lab_nrows {
                return Err(InputError::LabRows);
            }
        },
        None => {
            return Err(InputError::LabRows);
        },
    }
    match importance_len {
        Some(l) => {
            if l != lab_nrows {
                return Err(InputError::ImportanceLength);
            }
        },
        None => {},
    }
    if !alpha_in_range {
        return Err(InputError::AlphaRange);
    }
    if !t_final_positive {
        return Err(InputError::FinalTemperature);
    }
    Ok(CoreDims { w_in, h_in, w_out, h_out, palette_size, max_iter })
}

/// The sizes of one segmentation step.
#[derive(Clone, Copy, Debug, PartialEq, Eq, Structural)]
pub struct SlicDims {
    pub w_in: usize,
    pub h_in: usize,
    pub w_out: usize,
    pub h_out: usize,
    /// Number of superpixels, `w_out * h_out`.
    pub n_out: usize,
}

/// The checks of the segmentation entry point.
pub open spec fn spec_slic_check(
    lab_ncols: usize,
    lab_nrows: usize,
    colors_ncols: usize,
    colors_nrows: usize,
    w_in: i32,
    h_in: i32,
    w_out: i32,
    h_out: i32,
    n_center_x: usize,
    n_center_y: usize,
) -> Result<SlicDims, InputError> {
    if lab_ncols != 3 {
        Err(InputError::NotThreeColumns(Arg::Lab))
    } else if colors_ncols != 3 {
        Err(InputError::NotThreeColumns(Arg::Colors))
    } else if w_in < 1 {
        Err(InputError::NotPositive(Arg::WIn))
    } else if h_in < 1 {
        Err(InputError::NotPositive(Arg::HIn))
    } else if w_out < 1 {
        Err(InputError::NotPositive(Arg::WOut))
    } else if h_out < 1 {
        Err(InputError::NotPositive(Arg::HOut))
    } else if lab_nrows != w_in * h_in {
        Err(InputError::LabRows)
    } else if n_center_x != w_out * h_out || n_center_y != w_out * h_out || colors_nrows != w_out * h_out {
        Err(InputError::CentersLength)
    } else {
        Ok(
            SlicDims {
                w_in: w_in as usize,
                h_in: h_in as usize,
                w_out: w_out as usize,
                h_out: h_out as usize,
                n_out: (w_out * h_out) as usize,
            },
        )
    }
}

/// A segmentation step is accepted exactly when both color matrices have
/// three columns, every size is positive, `lab` has `w_in * h_in` rows and
/// there is one center and one color per superpixel; the sizes are handed on
/// with `n_out == w_out * h_out`; a wrong row count of `lab`, too many or too
/// few, is reported as such once the column and size checks pass.
pub proof fn lemma_slic_check_exact(
    lab_ncols: usize,
    lab_nrows: usize,
    colors_ncols: usize,
    colors_nrows: usize,
    w_in: i32,
    h_in: i32,
    w_out: i32,
    h_out: i32,
    n_center_x: usize,
    n_center_y: usize,
)
    ensures
        spec_slic_check(lab_ncols, lab_nrows, colors_ncols, colors_nrows, w_in, h_in, w_out, h_out, n_center_x, n_center_y) is Ok <==> (
            lab_ncols == 3 && colors_ncols == 3 && w_in >= 1 && h_in >= 1 && w_out >= 1 && h_out >= 1
            && lab_nrows == w_in * h_in
            && n_center_x == w_out * h_out && n_center_y == w_out * h_out && colors_nrows == w_out * h_out
        ),
        spec_slic_check(lab_ncols, lab_nrows, colors_ncols, colors_nrows, w_in, h_in, w_out, h_out, n_center_x, n_center_y) matches Ok(d) ==> (
            d.w_in == w_in && d.h_in == h_in && d.w_out == w_out && d.h_out == h_out && d.n_out == w_out * h_out
        ),
        spec_slic_check(lab_ncols, lab_nrows, colors_ncols, colors_nrows, w_in, h_in, w_out, h_out, n_center_x, n_center_y) == Err::<SlicDims, InputError>(InputError::LabRows) <==> (
            lab_ncols == 3 && colors_ncols == 3 && w_in >= 1 && h_in >= 1 && w_out >= 1 && h_out >= 1 && lab_nrows != w_in * h_in
        ),
        spec_slic_check(lab_ncols, lab_nrows, colors_ncols, colors_nrows, w_in, h_in, w_out, h_out, n_center_x, n_center_y) == Err::<SlicDims, InputError>(InputError::CentersLength) <==> (
            lab_ncols == 3 && colors_ncols == 3 && w_in >= 1 && h_in >= 1 && w_out >= 1 && h_out >= 1 && lab_nrows == w_in * h_in
            && (n_center_x != w_out * h_out || n_center_y != w_out * h_out || colors_nrows != w_out * h_out)
        ),
{
}

/// Check the arguments of one segmentation step: both color matrices have
/// three columns, every size is positive, `lab` has `w_in * h_in` rows and
/// the centers and colors have one entry per superpixel.
pub fn check_slic(
    lab_ncols: usize,
    lab_nrows: usize,
    colors_ncols: usize,
    colors_nrows: usize,
    w_in: i32,
    h_in: i32,
    w_out: i32,
    h_out: i32,
    n_center_x: usize,
    n_center_y: usize,
) -> (r: Result<SlicDims, InputError>)
    ensures
        r == spec_slic_check(lab_ncols, lab_nrows, colors_ncols, colors_nrows, w_in, h_in, w_out, h_out, n_center_x, n_center_y),
        r is Ok <==> (
            lab_ncols == 3 && colors_ncols == 3 && w_in >= 1 && h_in >= 1 && w_out >= 1 && h_out >= 1
            && lab_nrows == w_in * h_in
            && n_center_x == w_out * h_out && n_center_y == w_out * h_out && colors_nrows == w_out * h_out
        ),
        r matches Ok(d) ==> (
            d.w_in == w_in && d.h_in == h_in && d.w_out == w_out && d.h_out == h_out && d.n_out == w_out * h_out
        ),
        r == Err::<SlicDims, InputError>(InputError::LabRows) <==> (
            lab_ncols == 3 && colors_ncols == 3 && w_in >= 1 && h_in >= 1 && w_out >= 1 && h_out >= 1 && lab_nrows != w_in * h_in
        ),
        r == Err::<SlicDims, InputError>(InputError::CentersLength) <==> (
            lab_ncols == 3 && colors_ncols == 3 && w_in >= 1 && h_in >= 1 && w_out >= 1 && h_out >= 1 && lab_nrows == w_in * h_in
            && (n_center_x != w_out * h_out || n_center_y != w_out * h_out || colors_nrows != w_out * h_out)
        ),
{
    proof {
        lemma_slic_check_exact(lab_ncols, lab_nrows, colors_ncols, colors_nrows, w_in, h_in, w_out, h_out, n_center_x, n_center_y);
    }
    if lab_ncols != 3 {
        return Err(InputError::NotThreeColumns(Arg::Lab));
    }
    if colors_ncols != 3 {
        return Err(InputError::NotThreeColumns(Arg::Colors));
    }
    let w_in = to_usize(w_in, Arg::WIn)?;
    let h_in = to_usize(h_in, Arg::HIn)?;
    let w_out = to_usize(w_out, Arg::WOut)?;
    let h_out = to_usize(h_out, Arg::HOut)?;
    match checked_product(w_in, h_in) {
        Some(n) => {
            if n != lab_nrows {
                return Err(InputError::LabRows);
            }
        },
        None => {
            return Err(InputError::LabRows);
        },
    }
    match checked_product(w_out, h_out) {
        Some(n_out) => {
            if n_center_x != n_out || n_center_y != n_out || colors_nrows != n_out {
                return Err(InputError::CentersLength);
            }
            Ok(SlicDims { w_in, h_in, w_out, h_out, n_out })
        },
        None => Err(InputError::CentersLength),
    }
}

/// Check the arguments of the association entry point: both color
/// matrices have three columns, there is one marginal probability per
/// palette row, and the temperature is positive (as found by the caller).
pub fn check_associate(
    colors_ncols: usize,
    palette_ncols: usize,
    palette_nrows: usize,
    n_palette_prob: usize,
    temperature_positive: bool,
) -> (r: Result<(), InputError>)
    ensures
        r == (if colors_ncols != 3 {
            Err(InputError::NotThreeColumns(Arg::Colors))
        } else if palette_ncols != 3 {
            Err(InputError::NotThreeColumns(Arg::Palette))
        } else if n_palette_prob != palette_nrows {
            Err(InputError::PaletteProbLength)
        } else if !temperature_positive {
            Err(InputError::Temperature)
        } else {
            Ok(())
        }),
{
    if colors_ncols != 3 {
        Err(InputError::NotThreeColumns(Arg::Colors))
    } else if palette_ncols != 3 {
        Err(InputError::NotThreeColumns(Arg::Palette))
    } else if n_palette_prob != palette_nrows {
        Err(InputError::PaletteProbLength)
    } else if !temperature_positive {
        Err(InputError::Temperature)
    } else {
        Ok(())
    }
}

/// Check the arguments of the filtering entry point: `colors` has three
/// columns and `w * h` rows for positive `w` and `h`. Returns `(w, h)`.
pub fn check_filter(colors_ncols: usize, colors_nrows: usize, w: i32, h: i32) -> (r: Result<(usize, usize), InputError>)
    ensures
        r == (if colors_ncols != 3 {
            Err(InputError::NotThreeColumns(Arg::Colors))
        } else if w < 1 {
            Err(InputError::NotPositive(Arg::W))
        } else if h < 1 {
            Err(InputError::NotPositive(Arg::H))
        } else if colors_nrows != w * h {
            Err(InputError::ColorsRows)
        } else {
            Ok((w as usize, h as usize))
        }),
{
    if colors_ncols != 3 {
        return Err(InputError::NotThreeColumns(Arg::Colors));
    }
    let w = to_usize(w, Arg::W)?;
    let h = to_usize(h, Arg::H)?;
    match checked_product(w, h) {
        Some(n) => {
            if n != colors_nrows {
                Err(InputError::ColorsRows)
            } else {
                Ok((w, h))
            }
        },
        None => Err(InputError::ColorsRows),
    }
}

/// Check the arguments of the critical temperature entry point: `lab` has
/// three columns and the weights, if given, have one value per row.
pub fn check_weights(lab_ncols: usize, lab_nrows: usize, weights_len: Option<usize>) -> (r: Result<(), InputError>)
    ensures
        r == (if lab_ncols != 3 {
            Err(InputError::NotThreeColumns(Arg::Lab))
        } else if weights_len matches Some(l) && l != lab_nrows {
            Err(InputError::WeightsLength)
        } else {
            Ok(())
        }),
{
    if lab_ncols != 3 {
        return Err(InputError::NotThreeColumns(Arg::Lab));
    }
    match weights_len {
        Some(l) => {
            if l != lab_nrows {
                return Err(InputError::WeightsLength);
            }
        },
        None => {},
    }
    Ok(())
}

/// The name of an argument as it is written in R.
pub open spec fn spec_arg_name(a: Arg) -> Seq<char> {
    match a {
        Arg::Lab => "lab"@,
        Arg::Colors => "colors"@,
        Arg::Palette => "palette"@,
        Arg::WIn => "w_in"@,
        Arg::HIn => "h_in"@,
        Arg::WOut => "w_out"@,
        Arg::HOut => "h_out"@,
        Arg::PaletteSize => "palette_size"@,
        Arg::MaxIter => "max_iter"@,
        Arg::W => "w"@,
        Arg::H => "h"@,
    }
}

impl Arg {
    /// The name of the argument as it is written in R.
    pub fn name(&self) -> (s: &'static str)
        ensures
            s@ == spec_arg_name(*self),
    {
        match self {
            Arg::Lab => "lab",
            Arg::Colors => "colors",
            Arg::Palette => "palette",
            Arg::WIn => "w_in",
            Arg::HIn => "h_in",
            Arg::WOut => "w_out",
            Arg::HOut => "h_out",
            Arg::PaletteSize => "palette_size",
            Arg::MaxIter => "max_iter",
            Arg::W => "w",
            Arg::H => "h",
        }
    }
}

/// The text of the error reported to R.
pub open spec fn spec_message(e: InputError) -> Seq<char> {
    match e {
        InputError::NotThreeColumns(a) => "`"@ + spec_arg_name(a) + "` must have exactly 3 columns (L, a, b)."@,
        InputError::NotPositive(a) => "`"@ + spec_arg_name(a) + "` must be a positive integer."@,
        InputError::LabRows => "`lab` must have `w_in * h_in` rows."@,
        InputError::ImportanceLength => "`importance` must have one value per input pixel."@,
        InputError::WeightsLength => "`weights` must have one value per row of `lab`."@,
        InputError::CentersLength => "Centers and colors must have `w_out * h_out` entries."@,
        InputError::PaletteProbLength => "`palette_prob` must have one value per palette row."@,
        InputError::ColorsRows => "`colors` must have `w * h` rows."@,
        InputError::AlphaRange => "`alpha` must be strictly between 0 and 1."@,
        InputError::FinalTemperature => "`t_final` must be positive."@,
        InputError::Temperature => "`temperature` must be positive."@,
    }
}

impl InputError {
    /// The text of the error reported to R.
    pub fn message(&self) -> (m: String)
        ensures
            m@ == spec_message(*self),
    {
        match self {
            InputError::NotThreeColumns(a) => {
                let mut m = "`".to_owned();
                m.append(a.name());
                m.append("` must have exactly 3 columns (L, a, b).");
                m
            },
            InputError::NotPositive(a) => {
                let mut m = "`".to_owned();
                m.append(a.name());
                m.append("` must be a positive integer.");
                m
            },
            InputError::LabRows => "`lab` must have `w_in * h_in` rows.".to_owned(),
            InputError::ImportanceLength => "`importance` must have one value per input pixel.".to_owned(),
            InputError::WeightsLength => "`weights` must have one value per row of `lab`.".to_owned(),
            InputError::CentersLength => "Centers and colors must have `w_out * h_out` entries.".to_owned(),
            InputError::PaletteProbLength => "`palette_prob` must have one value per palette row.".to_owned(),
            InputError::ColorsRows => "`colors` must have `w * h` rows.".to_owned(),
            InputError::AlphaRange => "`alpha` must be strictly between 0 and 1.".to_owned(),
            InputError::FinalTemperature => "`t_final` must be positive.".to_owned(),
            InputError::Temperature => "`temperature` must be positive.".to_owned(),
        }
    }
}

} // verus!
