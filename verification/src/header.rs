//! The `key = value` lines of the `$ROAD_CRG`, `$ROAD_CRG_OPTS`, and `$ROAD_CRG_MODS`
//! blocks. A numeric value is kept as the text that C's `atof` reads from it; turning that
//! text into a float is left to the caller.

use vstd::prelude::*;
use vstd::string::StringSliceAdditionalSpecFns;
use crate::keys::{ModKey, OptionKey, RoadKey, MOD_KEYS, OPTION_KEYS, ROAD_KEYS};
use crate::number::{c_atoi, c_atoi_spec, numeric_prefix, numeric_prefix_exec};
use crate::text::{
    copy_range, find_byte, first_byte, lower, lowercase, same_bytes, skip_space,
    skip_spaces, trim_back, trim_end,
};
use crate::types::{border_mode_from, nan_mode_from, BorderMode, NanMode};

verus! {

/// Why a `key = value` line was rejected.
pub type LineError = &'static str;

/// The key of `key = value ! comment`, trimmed and in lower case, and where the value text
/// starts. `None` without `=`.
pub open spec fn assignment(line: Seq<u8>) -> Option<(Seq<u8>, int)> {
    match first_byte(line, 0, line.len() as int, 0x3d) {
        None => None,
        Some(eq) => {
            let key = line.subrange(0, eq);
            let a = skip_spaces(key, 0);
            let b = trim_back(key, a, eq);
            Some((lower(key.subrange(a, b)), eq + 1))
        },
    }
}

/// The number text C's `atof` reads from the value starting at `v`.
pub open spec fn number_in(line: Seq<u8>, v: int) -> Option<Seq<u8>> {
    let value = line.subrange(v, line.len() as int);
    match numeric_prefix(value) {
        Some((a, b)) => Some(value.subrange(a, b)),
        None => None,
    }
}

/// The integer C's `atoi` reads from the value starting at `v`.
pub open spec fn integer_in(line: Seq<u8>, v: int) -> Option<i64> {
    c_atoi_spec(line.subrange(v, line.len() as int))
}

/// Splits `key = value ! comment` into a lowercase key and the offset of the value text.
pub fn split_assignment(line: &[u8]) -> (r: Result<(Vec<u8>, usize), LineError>)
    ensures
        match assignment(line@) {
            None => r == Err::<(Vec<u8>, usize), LineError>("expected `key = value`"),
            Some((key, v)) => r matches Ok((k, start)) && k@ == key && start == v,
        },
        r matches Ok((_, v)) ==> v <= line@.len(),
{
    let eq = match find_byte(line, 0, line.len(), 0x3d) {
        None => return Err("expected `key = value`"),
        Some(eq) => eq,
    };
    let key = copy_range(line, 0, eq);
    let a = skip_space(key.as_slice(), 0);
    let b = trim_end(key.as_slice(), a, eq);
    let lowered = lowercase(key.as_slice(), a, b);
    assert(assignment(line@) == Some((lowered@, eq + 1)));
    Ok((lowered, eq + 1))
}

/// The number text in the value starting at `v`, or the line's error.
pub fn float(line: &[u8], v: usize) -> (r: Result<Vec<u8>, LineError>)
    requires
        v <= line@.len(),
    ensures
        match number_in(line@, v as int) {
            None => r == Err::<Vec<u8>, LineError>("expected a number"),
            Some(t) => r matches Ok(text) && text@ == t,
        },
{
    let value = copy_range(line, v, line.len());
    match numeric_prefix_exec(value.as_slice()) {
        None => Err("expected a number"),
        Some((a, b)) => Ok(copy_range(value.as_slice(), a, b)),
    }
}

/// The integer in the value starting at `v`, or the line's error.
pub fn integer(line: &[u8], v: usize) -> (r: Result<i64, LineError>)
    requires
        v <= line@.len(),
    ensures
        match integer_in(line@, v as int) {
            None => r == Err::<i64, LineError>("expected an integer"),
            Some(n) => r == Ok::<i64, LineError>(n),
        },
{
    let value = copy_range(line, v, line.len());
    match c_atoi(value.as_slice()) {
        None => Err("expected an integer"),
        Some(n) => Ok(n),
    }
}

/// `slots` with `upper`'s values wherever `upper` has one.
pub open spec fn overlay(lower: Seq<Option<Seq<u8>>>, upper: Seq<Option<Seq<u8>>>) -> Seq<
    Option<Seq<u8>>,
> {
    Seq::new(lower.len(), |i: int| if upper[i] is Some { upper[i] } else { lower[i] })
}

/// The texts held in `slots`.
pub open spec fn slots_view(slots: Seq<Option<Vec<u8>>>) -> Seq<Option<Seq<u8>>> {
    Seq::new(
        slots.len(),
        |i: int|
            match slots[i] {
                Some(t) => Some(t@),
                None => None,
            },
    )
}

/// Number texts by key slot.
pub struct Values {
    slots: Vec<Option<Vec<u8>>>,
}

impl View for Values {
    type V = Seq<Option<Seq<u8>>>;

    closed spec fn view(&self) -> Seq<Option<Seq<u8>>> {
        slots_view(self.slots@)
    }
}

impl Values {
    /// `n` empty slots.
    pub fn new(n: usize) -> (r: Values)
        ensures
            r@ == Seq::new(n as nat, |i: int| None::<Seq<u8>>),
    {
        let mut slots: Vec<Option<Vec<u8>>> = Vec::new();
        let mut i: usize = 0;
        while i < n
            invariant
                i <= n,
                slots@.len() == i,
                forall|k: int| 0 <= k < i ==> slots@[k] is None,
            decreases n - i,
        {
            slots.push(None);
            i += 1;
        }
        assert(slots_view(slots@) =~= Seq::new(n as nat, |k: int| None::<Seq<u8>>));
        Values { slots }
    }

    /// Number of slots.
    pub fn len(&self) -> (n: usize)
        ensures
            n == self@.len(),
    {
        self.slots.len()
    }

    /// The text in slot `i`.
    pub fn get(&self, i: usize) -> (r: Option<&Vec<u8>>)
        requires
            i < self@.len(),
        ensures
            match r {
                Some(t) => self@[i as int] == Some(t@),
                None => self@[i as int] is None,
            },
    {
        match &self.slots[i] {
            Some(t) => Some(t),
            None => None,
        }
    }

    /// Stores `text` in slot `i`.
    pub fn set(&mut self, i: usize, text: Vec<u8>)
        requires
            i < old(self)@.len(),
        ensures
            final(self)@ == old(self)@.update(i as int, Some(text@)),
    {
        self.slots.set(i, Some(text));
        assert(slots_view(self.slots@) =~= old(self)@.update(i as int, Some(text@)));
    }

    /// Takes each value that `upper` has, keeping the others.
    pub fn overlay(&mut self, upper: &Values)
        requires
            old(self)@.len() == upper@.len(),
        ensures
            final(self)@ == overlay(old(self)@, upper@),
    {
        let n = self.slots.len();
        let mut i: usize = 0;
        while i < n
            invariant
                n == self@.len() == upper@.len() == old(self)@.len(),
                i <= n,
                forall|k: int| 0 <= k < i ==> self@[k] == overlay(old(self)@, upper@)[k],
                forall|k: int| i <= k < n ==> self@[k] == old(self)@[k],
            decreases n - i,
        {
            if let Some(t) = &upper.slots[i] {
                let ghost before = self@;
                self.slots.set(i, Some(copy_range(t.as_slice(), 0, t.len())));
                assert(t@.subrange(0, t@.len() as int) =~= t@);
                assert(self@ =~= before.update(i as int, upper@[i as int]));
            }
            i += 1;
        }
        assert(self@ =~= overlay(old(self)@, upper@));
    }
}

impl Clone for Values {
    fn clone(&self) -> (r: Self)
        ensures
            r@ == self@,
    {
        let mut slots: Vec<Option<Vec<u8>>> = Vec::new();
        let mut i: usize = 0;
        while i < self.slots.len()
            invariant
                i <= self.slots@.len(),
                slots@.len() == i,
                forall|k: int| 0 <= k < i ==> #[trigger] slots_view(slots@)[k] == self@[k],
            decreases self.slots@.len() - i,
        {
            let slot = match &self.slots[i] {
                Some(t) => Some(copy_range(t.as_slice(), 0, t.len())),
                None => None,
            };
            proof {
                if let Some(t) = self.slots@[i as int] {
                    assert(t@.subrange(0, t@.len() as int) =~= t@);
                }
            }
            let ghost before = slots@;
            slots.push(slot);
            assert(slots@ == before.push(slot));
            assert forall|k: int| 0 <= k < i + 1 implies #[trigger] slots_view(slots@)[k]
                == self@[k] by {
                if k < i {
                    assert(slots_view(before)[k] == self@[k]);
                }
            }
            i += 1;
        }
        assert(slots_view(slots@) =~= self@);
        Values { slots }
    }
}

/// `$ROAD_CRG` values. A missing value means the key is absent; the C-API's fallbacks
/// apply later.
pub struct Road {
    pub values: Values,
}

/// What one `$ROAD_CRG` line sets: nothing for an unknown key, or a key and its number.
pub open spec fn road_line(line: Seq<u8>) -> Result<Option<(RoadKey, Seq<u8>)>, LineError> {
    match assignment(line) {
        None => Err("expected `key = value`"),
        Some((key, v)) => match RoadKey::lookup(key) {
            None => Ok(None),
            Some(k) => match number_in(line, v) {
                None => Err("expected a number"),
                Some(t) => Ok(Some((k, t))),
            },
        },
    }
}

impl Road {
    /// No values set.
    pub fn new() -> (r: Road)
        ensures
            r.values@ == Seq::new(ROAD_KEYS as nat, |i: int| None::<Seq<u8>>),
    {
        Road { values: Values::new(ROAD_KEYS) }
    }

    /// The number text of `key`, if the file set it.
    pub fn get(&self, key: RoadKey) -> (r: Option<&Vec<u8>>)
        requires
            self.values@.len() == ROAD_KEYS,
        ensures
            match r {
                Some(t) => self.values@[key.index()] == Some(t@),
                None => self.values@[key.index()] is None,
            },
    {
        self.values.get(key.slot())
    }

    /// Applies one `$ROAD_CRG` line. Unknown keys are ignored, as in the C-API.
    pub fn apply(&mut self, line: &[u8]) -> (r: Result<(), LineError>)
        requires
            old(self).values@.len() == ROAD_KEYS,
        ensures
            match road_line(line@) {
                Err(e) => r == Err::<(), LineError>(e) && final(self).values@ == old(
                    self,
                ).values@,
                Ok(None) => r is Ok && final(self).values@ == old(self).values@,
                Ok(Some((k, t))) => r is Ok && final(self).values@ == old(
                    self,
                ).values@.update(k.index(), Some(t)),
            },
    {
        let (key, v) = split_assignment(line)?;
        let k = match RoadKey::find(key.as_slice()) {
            None => return Ok(()),
            Some(k) => k,
        };
        let text = float(line, v)?;
        self.values.set(k.slot(), text);
        Ok(())
    }
}

/// What one `$ROAD_CRG_OPTS` line sets.
pub enum OptionsLine {
    /// An unknown key, or a log or warning setting.
    Ignored,
    BorderModeU(BorderMode),
    BorderModeV(BorderMode),
    /// `REFLINE_CONTINUATION`: `true` for 1 (close track), `false` for 0.
    CloseTrack(bool),
    Number(OptionKey, Seq<u8>),
}

pub open spec fn options_line(line: Seq<u8>) -> Result<OptionsLine, LineError> {
    match assignment(line) {
        None => Err("expected `key = value`"),
        Some((key, v)) => if key == "border_mode_u".spec_bytes() || key
            == "border_mode_v".spec_bytes() {
            match integer_in(line, v) {
                None => Err("expected an integer"),
                Some(code) => match border_mode_from(code as int) {
                    None => Err("border mode must be 0 to 4"),
                    Some(m) => if key == "border_mode_u".spec_bytes() {
                        Ok(OptionsLine::BorderModeU(m))
                    } else {
                        Ok(OptionsLine::BorderModeV(m))
                    },
                },
            }
        } else if key == "refline_continuation".spec_bytes() {
            match integer_in(line, v) {
                None => Err("expected an integer"),
                Some(code) => if code == 0 {
                    Ok(OptionsLine::CloseTrack(false))
                } else if code == 1 {
                    Ok(OptionsLine::CloseTrack(true))
                } else {
                    Err("refline continuation must be 0 or 1")
                },
            }
        } else {
            match OptionKey::lookup(key) {
                None => Ok(OptionsLine::Ignored),
                Some(k) => match number_in(line, v) {
                    None => Err("expected a number"),
                    Some(t) => Ok(OptionsLine::Number(k, t)),
                },
            }
        },
    }
}

/// `$ROAD_CRG_OPTS` values that affect evaluation. Log and warning settings are dropped.
pub struct Options {
    pub border_mode_u: Option<BorderMode>,
    pub border_mode_v: Option<BorderMode>,
    /// `true` for `REFLINE_CONTINUATION = 1` (close track).
    pub refline_close_track: Option<bool>,
    /// Numbers by [`OptionKey`].
    pub values: Values,
}

/// The contents of an [`Options`].
pub struct OptionsModel {
    pub border_mode_u: Option<BorderMode>,
    pub border_mode_v: Option<BorderMode>,
    pub refline_close_track: Option<bool>,
    pub values: Seq<Option<Seq<u8>>>,
}

impl View for Options {
    type V = OptionsModel;

    open spec fn view(&self) -> OptionsModel {
        OptionsModel {
            border_mode_u: self.border_mode_u,
            border_mode_v: self.border_mode_v,
            refline_close_track: self.refline_close_track,
            values: self.values@,
        }
    }
}

impl OptionsModel {
    /// No values set.
    pub open spec fn empty() -> OptionsModel {
        OptionsModel {
            border_mode_u: None,
            border_mode_v: None,
            refline_close_track: None,
            values: Seq::new(OPTION_KEYS as nat, |i: int| None::<Seq<u8>>),
        }
    }

    /// After a line that sets `l`.
    pub open spec fn with(self, l: OptionsLine) -> OptionsModel {
        match l {
            OptionsLine::Ignored => self,
            OptionsLine::BorderModeU(m) => OptionsModel { border_mode_u: Some(m), ..self },
            OptionsLine::BorderModeV(m) => OptionsModel { border_mode_v: Some(m), ..self },
            OptionsLine::CloseTrack(b) => OptionsModel { refline_close_track: Some(b), ..self },
            OptionsLine::Number(k, t) => OptionsModel {
                values: self.values.update(k.index(), Some(t)),
                ..self
            },
        }
    }

    /// `upper`'s settings where it has them, else `self`'s.
    pub open spec fn under(self, upper: OptionsModel) -> OptionsModel {
        OptionsModel {
            border_mode_u: if upper.border_mode_u is Some {
                upper.border_mode_u
            } else {
                self.border_mode_u
            },
            border_mode_v: if upper.border_mode_v is Some {
                upper.border_mode_v
            } else {
                self.border_mode_v
            },
            refline_close_track: if upper.refline_close_track is Some {
                upper.refline_close_track
            } else {
                self.refline_close_track
            },
            values: overlay(self.values, upper.values),
        }
    }
}

impl Options {
    /// No values set.
    pub fn new() -> (r: Options)
        ensures
            r@ == OptionsModel::empty(),
    {
        Options {
            border_mode_u: None,
            border_mode_v: None,
            refline_close_track: None,
            values: Values::new(OPTION_KEYS),
        }
    }

    /// The number text of `key`, if the file set it.
    pub fn get(&self, key: OptionKey) -> (r: Option<&Vec<u8>>)
        requires
            self.values@.len() == OPTION_KEYS,
        ensures
            match r {
                Some(t) => self.values@[key.index()] == Some(t@),
                None => self.values@[key.index()] is None,
            },
    {
        self.values.get(key.slot())
    }

    /// Applies one `$ROAD_CRG_OPTS` line. Unknown keys are ignored, as in the C-API.
    pub fn apply(&mut self, line: &[u8]) -> (r: Result<(), LineError>)
        requires
            old(self).values@.len() == OPTION_KEYS,
        ensures
            match options_line(line@) {
                Err(e) => r == Err::<(), LineError>(e) && final(self)@ == old(self)@,
                Ok(l) => r is Ok && final(self)@ == old(self)@.with(l),
            },
    {
        let (key, v) = split_assignment(line)?;
        let k = key.as_slice();
        let is_u = same_bytes(k, "border_mode_u".as_bytes());
        if is_u || same_bytes(k, "border_mode_v".as_bytes()) {
            let mode = match BorderMode::from_code(integer(line, v)?) {
                None => return Err("border mode must be 0 to 4"),
                Some(mode) => mode,
            };
            if is_u {
                self.border_mode_u = Some(mode);
            } else {
                self.border_mode_v = Some(mode);
            }
            return Ok(());
        }
        if same_bytes(k, "refline_continuation".as_bytes()) {
            let code = integer(line, v)?;
            self.refline_close_track = Some(
                if code == 0 {
                    false
                } else if code == 1 {
                    true
                } else {
                    return Err("refline continuation must be 0 or 1");
                },
            );
            return Ok(());
        }
        let key = match OptionKey::find(k) {
            None => return Ok(()),
            Some(key) => key,
        };
        let text = float(line, v)?;
        self.values.set(key.slot(), text);
        Ok(())
    }

    /// Takes each setting that `upper` makes, keeping the others.
    pub fn overlay(&mut self, upper: &Options)
        requires
            old(self).values@.len() == OPTION_KEYS,
            upper.values@.len() == OPTION_KEYS,
        ensures
            final(self)@ == old(self)@.under(upper@),
    {
        if upper.border_mode_u.is_some() {
            self.border_mode_u = upper.border_mode_u;
        }
        if upper.border_mode_v.is_some() {
            self.border_mode_v = upper.border_mode_v;
        }
        if upper.refline_close_track.is_some() {
            self.refline_close_track = upper.refline_close_track;
        }
        self.values.overlay(&upper.values);
    }
}

impl Clone for Options {
    fn clone(&self) -> (r: Self)
        ensures
            r@ == self@,
    {
        Options {
            border_mode_u: self.border_mode_u,
            border_mode_v: self.border_mode_v,
            refline_close_track: self.refline_close_track,
            values: self.values.clone(),
        }
    }
}

/// What one `$ROAD_CRG_MODS` line sets.
pub enum ModsLine {
    Ignored,
    NanMode(NanMode),
    Number(ModKey, Seq<u8>),
}

pub open spec fn mods_line(line: Seq<u8>) -> Result<ModsLine, LineError> {
    match assignment(line) {
        None => Err("expected `key = value`"),
        Some((key, v)) => if key == "grid_nan_mode".spec_bytes() {
            match integer_in(line, v) {
                None => Err("expected an integer"),
                Some(code) => match nan_mode_from(code as int) {
                    None => Err("grid NaN mode must be 0 to 2"),
                    Some(m) => Ok(ModsLine::NanMode(m)),
                },
            }
        } else {
            match ModKey::lookup(key) {
                None => Ok(ModsLine::Ignored),
                Some(k) => match number_in(line, v) {
                    None => Err("expected a number"),
                    Some(t) => Ok(ModsLine::Number(k, t)),
                },
            }
        },
    }
}

/// `$ROAD_CRG_MODS` values.
pub struct Mods {
    pub grid_nan_mode: Option<NanMode>,
    /// Numbers by [`ModKey`].
    pub values: Values,
}

/// The contents of a [`Mods`].
pub struct ModsModel {
    pub grid_nan_mode: Option<NanMode>,
    pub values: Seq<Option<Seq<u8>>>,
}

impl View for Mods {
    type V = ModsModel;

    open spec fn view(&self) -> ModsModel {
        ModsModel { grid_nan_mode: self.grid_nan_mode, values: self.values@ }
    }
}

impl ModsModel {
    pub open spec fn empty() -> ModsModel {
        ModsModel {
            grid_nan_mode: None,
            values: Seq::new(MOD_KEYS as nat, |i: int| None::<Seq<u8>>),
        }
    }

    pub open spec fn with(self, l: ModsLine) -> ModsModel {
        match l {
            ModsLine::Ignored => self,
            ModsLine::NanMode(m) => ModsModel { grid_nan_mode: Some(m), ..self },
            ModsLine::Number(k, t) => ModsModel {
                values: self.values.update(k.index(), Some(t)),
                ..self
            },
        }
    }

    /// `upper`'s settings where it has them, else `self`'s.
    pub open spec fn under(self, upper: ModsModel) -> ModsModel {
        ModsModel {
            grid_nan_mode: if upper.grid_nan_mode is Some {
                upper.grid_nan_mode
            } else {
                self.grid_nan_mode
            },
            values: overlay(self.values, upper.values),
        }
    }
}

impl Mods {
    /// No values set.
    pub fn new() -> (r: Mods)
        ensures
            r@ == ModsModel::empty(),
    {
        Mods { grid_nan_mode: None, values: Values::new(MOD_KEYS) }
    }

    /// The number text of `key`, if the file set it.
    pub fn get(&self, key: ModKey) -> (r: Option<&Vec<u8>>)
        requires
            self.values@.len() == MOD_KEYS,
        ensures
            match r {
                Some(t) => self.values@[key.index()] == Some(t@),
                None => self.values@[key.index()] is None,
            },
    {
        self.values.get(key.slot())
    }

    /// Applies one `$ROAD_CRG_MODS` line. Unknown keys are ignored, as in the C-API.
    pub fn apply(&mut self, line: &[u8]) -> (r: Result<(), LineError>)
        requires
            old(self).values@.len() == MOD_KEYS,
        ensures
            match mods_line(line@) {
                Err(e) => r == Err::<(), LineError>(e) && final(self)@ == old(self)@,
                Ok(l) => r is Ok && final(self)@ == old(self)@.with(l),
            },
    {
        let (key, v) = split_assignment(line)?;
        let k = key.as_slice();
        if same_bytes(k, "grid_nan_mode".as_bytes()) {
            let mode = match NanMode::from_code(integer(line, v)?) {
                None => return Err("grid NaN mode must be 0 to 2"),
                Some(mode) => mode,
            };
            self.grid_nan_mode = Some(mode);
            return Ok(());
        }
        let key = match ModKey::find(k) {
            None => return Ok(()),
            Some(key) => key,
        };
        let text = float(line, v)?;
        self.values.set(key.slot(), text);
        Ok(())
    }

    /// Takes each setting that `upper` makes, keeping the others.
    pub fn overlay(&mut self, upper: &Mods)
        requires
            old(self).values@.len() == MOD_KEYS,
            upper.values@.len() == MOD_KEYS,
        ensures
            final(self)@ == old(self)@.under(upper@),
    {
        if upper.grid_nan_mode.is_some() {
            self.grid_nan_mode = upper.grid_nan_mode;
        }
        self.values.overlay(&upper.values);
    }
}

impl Clone for Mods {
    fn clone(&self) -> (r: Self)
        ensures
            r@ == self@,
    {
        Mods { grid_nan_mode: self.grid_nan_mode, values: self.values.clone() }
    }
}

/// The modifiers the C-API applies to a file without a `$ROAD_CRG_MODS` block: NaN values
/// take their neighbour's value, and the reference point lands at x = y = z = 0 with
/// heading 0.
pub open spec fn default_mods() -> ModsModel {
    ModsModel {
        grid_nan_mode: Some(NanMode::KeepLast),
        values: ModsModel::empty().values.update(ModKey::RefPointX.index(), Some("0".spec_bytes())).update(
            ModKey::RefPointY.index(),
            Some("0".spec_bytes()),
        ).update(ModKey::RefPointZ.index(), Some("0".spec_bytes())).update(
            ModKey::RefPointPhi.index(),
            Some("0".spec_bytes()),
        ),
    }
}

impl Mods {
    /// The C-API's modifiers for a file without a `$ROAD_CRG_MODS` block.
    pub fn c_api_defaults() -> (m: Mods)
        ensures
            m@ == default_mods(),
            m.values@.len() == MOD_KEYS,
    {
        let mut m = Mods::new();
        m.grid_nan_mode = Some(NanMode::KeepLast);
        let zero = "0".as_bytes();
        m.values.set(ModKey::RefPointX.slot(), copy_range(zero, 0, zero.len()));
        m.values.set(ModKey::RefPointY.slot(), copy_range(zero, 0, zero.len()));
        m.values.set(ModKey::RefPointZ.slot(), copy_range(zero, 0, zero.len()));
        m.values.set(ModKey::RefPointPhi.slot(), copy_range(zero, 0, zero.len()));
        assert(zero@.subrange(0, zero@.len() as int) =~= zero@);
        m
    }

    /// The modifiers that apply: a `$ROAD_CRG_MODS` block replaces the C-API's defaults
    /// entirely; without one, the defaults apply.
    pub fn or_defaults(mods: Option<Mods>) -> (m: Mods)
        requires
            mods matches Some(x) ==> x.values@.len() == MOD_KEYS,
        ensures
            m@ == match mods {
                Some(x) => x@,
                None => default_mods(),
            },
            m.values@.len() == MOD_KEYS,
    {
        match mods {
            Some(x) => x,
            None => Mods::c_api_defaults(),
        }
    }
}

/// The border modes that queries use, along u and along v: the file's `$ROAD_CRG_OPTS`
/// setting where it has one, else the caller's.
pub open spec fn border_modes_of(
    file: Option<OptionsModel>,
    caller_u: BorderMode,
    caller_v: BorderMode,
) -> (BorderMode, BorderMode) {
    let (fu, fv) = match file {
        Some(o) => (o.border_mode_u, o.border_mode_v),
        None => (None, None),
    };
    (
        match fu {
            Some(m) => m,
            None => caller_u,
        },
        match fv {
            Some(m) => m,
            None => caller_v,
        },
    )
}

impl Options {
    /// The border modes that queries use, as [`border_modes_of`]: settings in the file take
    /// precedence over the caller's.
    pub fn border_modes(file: &Option<Options>, caller_u: BorderMode, caller_v: BorderMode) -> (r: (
        BorderMode,
        BorderMode,
    ))
        ensures
            r == border_modes_of(
                match file {
                    Some(o) => Some(o@),
                    None => None,
                },
                caller_u,
                caller_v,
            ),
    {
        match file {
            Some(o) => (
                match o.border_mode_u {
                    Some(m) => m,
                    None => caller_u,
                },
                match o.border_mode_v {
                    Some(m) => m,
                    None => caller_v,
                },
            ),
            None => (caller_u, caller_v),
        }
    }
}

} // verus!
