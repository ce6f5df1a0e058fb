//! Files that include other files through `$ROAD_CRG_FILE`. Reading the included files is
//! left to the caller; this module decides how their contents combine.
//!
//! An included file loads as if it were loaded directly. Header values apply in reading
//! order; where nesting levels set the same option or modifier, the least nested file's
//! value applies.

use vstd::prelude::*;
use crate::definition::{lossy_text, lossy_utf8, DataDef, DataDefModel};
use crate::error::Error;
use crate::header::{overlay, Mods, ModsModel, Options, OptionsModel, Road};
use crate::keys::{MOD_KEYS, OPTION_KEYS, ROAD_KEYS};
use crate::scan::{empty_road, mods_view, options_view, scan_header, scanned, FileHeader, HeaderModel};
use crate::text::copy_range;

verus! {

/// How deep includes may nest.
pub const MAX_INCLUDE_DEPTH: usize = 8;

/// Whether a file at nesting depth `depth` may include another one.
pub fn check_depth(depth: usize) -> (r: Result<(), Error>)
    ensures
        r is Ok <==> depth < MAX_INCLUDE_DEPTH,
        r matches Err(e) ==> e == Error::IncludeTooDeep,
{
    if depth >= MAX_INCLUDE_DEPTH {
        Err(Error::IncludeTooDeep)
    } else {
        Ok(())
    }
}

/// The name of an included file, as the loader receives it.
pub fn include_name(name: &[u8]) -> (s: String)
    ensures
        s@ == lossy_utf8(name@),
{
    lossy_text(name)
}

/// Whether an error from loading an included file passes through unchanged: errors about
/// reading or nesting files.
pub open spec fn passes_through(e: Error) -> bool {
    e is Io || e is Include || e is IncludeTooDeep || e is IncludeCycle || e is IncludeUnsupported
}

/// The error that loading the included file `path` with error `e` reports.
pub fn include_error(path: String, e: Error) -> (r: Error)
    ensures
        passes_through(e) ==> r == e,
        !passes_through(e) ==> (r matches Error::Include { path: p, error } && p@ == path@
            && *error == e),
{
    match e {
        Error::Io { .. } | Error::Include { .. } | Error::IncludeTooDeep | Error::IncludeCycle(_)
        | Error::IncludeUnsupported => e,
        _ => Error::Include { path, error: Box::new(e) },
    }
}

/// The data definition and payload of a file.
pub struct Body {
    pub def: DataDef,
    /// The bytes after the `$$$$` line.
    pub data: Vec<u8>,
}

/// A file with its includes combined.
pub struct Loaded {
    pub road: Road,
    pub options: Option<Options>,
    pub mods: Option<Mods>,
    /// The data, from this file or the one included file that has it.
    pub body: Option<Body>,
}

/// The contents of a [`Loaded`].
pub struct LoadedModel {
    pub road: Seq<Option<Seq<u8>>>,
    pub options: Option<OptionsModel>,
    pub mods: Option<ModsModel>,
    pub body: Option<(DataDefModel, Seq<u8>)>,
}

impl View for Loaded {
    type V = LoadedModel;

    open spec fn view(&self) -> LoadedModel {
        LoadedModel {
            road: self.road.values@,
            options: options_view(self.options),
            mods: mods_view(self.mods),
            body: match self.body {
                Some(b) => Some((b.def@, b.data@)),
                None => None,
            },
        }
    }
}

/// Whether every block in `l` has its full set of key slots.
pub open spec fn complete(l: LoadedModel) -> bool {
    &&& l.road.len() == ROAD_KEYS
    &&& l.options matches Some(o) ==> o.values.len() == OPTION_KEYS
    &&& l.mods matches Some(o) ==> o.values.len() == MOD_KEYS
}

/// Options of a more nested level (`lower`) under those of a less nested one (`upper`).
pub open spec fn options_under(lower: Option<OptionsModel>, upper: Option<OptionsModel>) -> Option<
    OptionsModel,
> {
    match (lower, upper) {
        (None, u) => u,
        (Some(l), None) => Some(l),
        (Some(l), Some(u)) => Some(l.under(u)),
    }
}

/// Modifiers of a more nested level (`lower`) under those of a less nested one (`upper`).
pub open spec fn mods_under(lower: Option<ModsModel>, upper: Option<ModsModel>) -> Option<
    ModsModel,
> {
    match (lower, upper) {
        (None, u) => u,
        (Some(l), None) => Some(l),
        (Some(l), Some(u)) => Some(l.under(u)),
    }
}

/// Road values after the first `n + 1` segments of the file and the first `n` includes:
/// each include's values apply where its `$ROAD_CRG_FILE` block stands.
pub open spec fn road_through(
    segments: Seq<Seq<Option<Seq<u8>>>>,
    kids: Seq<LoadedModel>,
    n: nat,
) -> Seq<Option<Seq<u8>>>
    decreases n,
{
    if n == 0 {
        segments[0]
    } else {
        overlay(overlay(road_through(segments, kids, (n - 1) as nat), kids[n - 1].road), segments[n as int])
    }
}

/// Options of the first `n` includes; a later include's value beats an earlier one's.
pub open spec fn kid_options(kids: Seq<LoadedModel>, n: nat) -> Option<OptionsModel>
    decreases n,
{
    if n == 0 {
        None
    } else {
        options_under(kid_options(kids, (n - 1) as nat), kids[n - 1].options)
    }
}

/// Modifiers of the first `n` includes.
pub open spec fn kid_mods(kids: Seq<LoadedModel>, n: nat) -> Option<ModsModel>
    decreases n,
{
    if n == 0 {
        None
    } else {
        mods_under(kid_mods(kids, (n - 1) as nat), kids[n - 1].mods)
    }
}

/// How many of the first `n` includes have data.
pub open spec fn kid_bodies(kids: Seq<LoadedModel>, n: nat) -> nat
    decreases n,
{
    if n == 0 {
        0
    } else {
        kid_bodies(kids, (n - 1) as nat) + if kids[n - 1].body is Some {
            1nat
        } else {
            0nat
        }
    }
}

/// The data of the first of the first `n` includes that has data.
pub open spec fn kid_body(kids: Seq<LoadedModel>, n: nat) -> Option<(DataDefModel, Seq<u8>)>
    decreases n,
{
    if n == 0 {
        None
    } else if kid_body(kids, (n - 1) as nat) is Some {
        kid_body(kids, (n - 1) as nat)
    } else {
        kids[n - 1].body
    }
}

/// A file's header `h`, read from `bytes`, combined with its included files `kids`.
/// Its own options and modifiers beat its includes'. The data must come from exactly one
/// place: the file itself or one include; from more than one is an error.
pub open spec fn combined(bytes: Seq<u8>, h: HeaderModel, kids: Seq<LoadedModel>) -> Result<
    LoadedModel,
    Error,
> {
    let n = kids.len();
    let own = if h.data_start is Some {
        1nat
    } else {
        0nat
    };
    if own + kid_bodies(kids, n) > 1 {
        Err(Error::Invalid("data given by more than one file"))
    } else {
        Ok(
            LoadedModel {
                road: road_through(h.segments, kids, n),
                options: options_under(kid_options(kids, n), h.options),
                mods: mods_under(kid_mods(kids, n), h.mods),
                body: match h.data_start {
                    Some(p) => Some((h.def, bytes.subrange(p, bytes.len() as int))),
                    None => kid_body(kids, n),
                },
            },
        )
    }
}

fn options_under_exec(lower: Option<Options>, upper: &Option<Options>) -> (r: Option<Options>)
    requires
        lower matches Some(o) ==> o.values@.len() == OPTION_KEYS,
        *upper matches Some(o) ==> o.values@.len() == OPTION_KEYS,
    ensures
        options_view(r) == options_under(options_view(lower), options_view(*upper)),
        r matches Some(o) ==> o.values@.len() == OPTION_KEYS,
{
    match (lower, upper) {
        (None, Some(u)) => Some(u.clone()),
        (None, None) => None,
        (Some(l), None) => Some(l),
        (Some(l), Some(u)) => {
            let mut l = l;
            l.overlay(u);
            Some(l)
        },
    }
}

fn mods_under_exec(lower: Option<Mods>, upper: &Option<Mods>) -> (r: Option<Mods>)
    requires
        lower matches Some(o) ==> o.values@.len() == MOD_KEYS,
        *upper matches Some(o) ==> o.values@.len() == MOD_KEYS,
    ensures
        mods_view(r) == mods_under(mods_view(lower), mods_view(*upper)),
        r matches Some(o) ==> o.values@.len() == MOD_KEYS,
{
    match (lower, upper) {
        (None, Some(u)) => Some(u.clone()),
        (None, None) => None,
        (Some(l), None) => Some(l),
        (Some(l), Some(u)) => {
            let mut l = l;
            l.overlay(u);
            Some(l)
        },
    }
}

pub open spec fn loaded_view(kids: Seq<Loaded>) -> Seq<LoadedModel> {
    Seq::new(kids.len(), |i: int| kids[i]@)
}

proof fn lemma_overlay_empty(s: Seq<Option<Seq<u8>>>)
    requires
        s.len() == ROAD_KEYS,
    ensures
        overlay(empty_road(), s) == s,
{
    assert(overlay(empty_road(), s) =~= s);
}

/// Combines the header `header` of a file read from `bytes` with its included files
/// `kids`, one per include in file order, as [`combined`].
pub fn combine(bytes: &[u8], header: FileHeader, kids: Vec<Loaded>) -> (r: Result<Loaded, Error>)
    requires
        header.segments@.len() == header.includes@.len() + 1,
        kids@.len() == header.includes@.len(),
        forall|i: int|
            0 <= i < header.segments@.len() ==> (#[trigger] header.segments@[i]).values@.len()
                == ROAD_KEYS,
        header.options matches Some(o) ==> o.values@.len() == OPTION_KEYS,
        header.mods matches Some(o) ==> o.values@.len() == MOD_KEYS,
        header.data_start matches Some(p) ==> p <= bytes@.len(),
        forall|i: int| 0 <= i < kids@.len() ==> complete(#[trigger] kids@[i]@),
    ensures
        match combined(bytes@, header@, loaded_view(kids@)) {
            Err(e) => r matches Err(e2) && e2 == e,
            Ok(l) => r matches Ok(l2) && l2@ == l && complete(l),
        },
{
    let ghost h = header@;
    let ghost ks = loaded_view(kids@);
    let n = kids.len();
    let mut count: usize = if header.data_start.is_some() { 1 } else { 0 };
    let mut first: Option<usize> = None;
    let mut i: usize = 0;
    while i < n
        invariant
            n == kids@.len(),
            ks == loaded_view(kids@),
            i <= n,
            count == if (if header.data_start is Some { 1nat } else { 0nat }) + kid_bodies(
                ks,
                i as nat,
            ) > 1 {
                2
            } else {
                (if header.data_start is Some { 1nat } else { 0nat }) + kid_bodies(ks, i as nat)
            },
            match first {
                Some(k) => k < i && ks[k as int].body is Some && kid_body(ks, i as nat) == ks[k as int].body,
                None => kid_body(ks, i as nat) is None,
            },
        decreases n - i,
    {
        if kids[i].body.is_some() {
            if count < 2 {
                count += 1;
            }
            if first.is_none() {
                first = Some(i);
            }
        }
        i += 1;
    }
    if count > 1 {
        return Err(Error::Invalid("data given by more than one file"));
    }
    let mut road = Road::new();
    road.values.overlay(&header.segments[0].values);
    proof {
        lemma_overlay_empty(h.segments[0]);
        assert(header.segments@[0].values@ == h.segments[0]);
    }
    let mut options: Option<Options> = None;
    let mut mods: Option<Mods> = None;
    let mut i: usize = 0;
    while i < n
        invariant
            n == kids@.len(),
            ks == loaded_view(kids@),
            h == header@,
            header.segments@.len() == n + 1,
            forall|k: int|
                0 <= k < header.segments@.len() ==> (#[trigger] header.segments@[k]).values@.len()
                    == ROAD_KEYS,
            forall|k: int| 0 <= k < kids@.len() ==> complete(#[trigger] kids@[k]@),
            i <= n,
            road.values@ == road_through(h.segments, ks, i as nat),
            road.values@.len() == ROAD_KEYS,
            options_view(options) == kid_options(ks, i as nat),
            mods_view(mods) == kid_mods(ks, i as nat),
            options matches Some(o) ==> o.values@.len() == OPTION_KEYS,
            mods matches Some(o) ==> o.values@.len() == MOD_KEYS,
        decreases n - i,
    {
        assert(complete(kids@[i as int]@));
        assert(ks[i as int] == kids@[i as int]@);
        road.values.overlay(&kids[i].road.values);
        road.values.overlay(&header.segments[i + 1].values);
        assert(header.segments@[i + 1].values@ == h.segments[i + 1]);
        options = options_under_exec(options, &kids[i].options);
        mods = mods_under_exec(mods, &kids[i].mods);
        i += 1;
    }
    let options = options_under_exec(options, &header.options);
    let mods = mods_under_exec(mods, &header.mods);
    let FileHeader { segments: _, includes: _, options: _, mods: _, def, data_start } = header;
    let body = match data_start {
        Some(p) => Some(Body { def, data: copy_range(bytes, p, bytes.len()) }),
        None => match first {
            Some(k) => {
                let mut kids = kids;
                let kid = kids.remove(k);
                kid.body
            },
            None => None,
        },
    };
    let r = Loaded { road, options, mods, body };
    Ok(r)
}

/// The names in `chain`, as text.
pub open spec fn names_of(chain: Seq<String>) -> Seq<Seq<char>> {
    Seq::new(chain.len(), |k: int| chain[k]@)
}

proof fn lemma_names_push(chain: Seq<String>, s: String)
    ensures
        names_of(chain.push(s)) == names_of(chain).push(s@),
{
    assert(names_of(chain.push(s)) =~= names_of(chain).push(s@));
}

/// Whether `loader` may answer `r` when asked for the names `names` followed by `name`.
#[verifier::opaque]
pub open spec fn answers<F: Fn(&[String]) -> Result<Vec<u8>, Error>>(
    loader: F,
    names: Seq<Seq<char>>,
    name: Seq<char>,
    r: Result<Vec<u8>, Error>,
) -> bool {
    exists|c: &[String]| #[trigger] loader.ensures((c,), r) && names_of(c@) == names.push(name)
}

/// Whether `loader` may answer the bytes `b` when asked for the names `names` followed by
/// `name`.
#[verifier::opaque]
pub open spec fn answers_bytes<F: Fn(&[String]) -> Result<Vec<u8>, Error>>(
    loader: F,
    names: Seq<Seq<char>>,
    name: Seq<char>,
    b: Seq<u8>,
) -> bool {
    exists|v: Vec<u8>| v@ == b && #[trigger] answers(loader, names, name, Ok::<Vec<u8>, Error>(v))
}

/// Whether `loader` may answer the bytes `sources[i]` for each include name `includes[i]`
/// that `sources` reaches, asked for `names` followed by the include's name.
#[verifier::opaque]
pub open spec fn answered_all<F: Fn(&[String]) -> Result<Vec<u8>, Error>>(
    loader: F,
    names: Seq<Seq<char>>,
    includes: Seq<Seq<u8>>,
    sources: Seq<Seq<u8>>,
) -> bool {
    forall|i: int|
        0 <= i < sources.len() ==> #[trigger] answers_bytes(
            loader,
            names,
            lossy_utf8(includes[i]),
            sources[i],
        )
}

proof fn lemma_answered_push<F: Fn(&[String]) -> Result<Vec<u8>, Error>>(
    loader: F,
    names: Seq<Seq<char>>,
    includes: Seq<Seq<u8>>,
    sources: Seq<Seq<u8>>,
    b: Seq<u8>,
)
    requires
        answered_all(loader, names, includes, sources),
        answers_bytes(loader, names, lossy_utf8(includes[sources.len() as int]), b),
    ensures
        answered_all(loader, names, includes, sources.push(b)),
{
    reveal(answered_all);
    assert forall|i: int| 0 <= i < sources.len() + 1 implies #[trigger] answers_bytes(
        loader,
        names,
        lossy_utf8(includes[i]),
        sources.push(b)[i],
    ) by {
        if i < sources.len() {
            assert(sources.push(b)[i] == sources[i]);
        }
    }
}

/// The bytes answered for include `i`, as [`answered_all`] says.
pub proof fn lemma_answered_at<F: Fn(&[String]) -> Result<Vec<u8>, Error>>(
    loader: F,
    names: Seq<Seq<char>>,
    includes: Seq<Seq<u8>>,
    sources: Seq<Seq<u8>>,
    i: int,
)
    requires
        answered_all(loader, names, includes, sources),
        0 <= i < sources.len(),
    ensures
        answers_bytes(loader, names, lossy_utf8(includes[i]), sources[i]),
{
    reveal(answered_all);
}

/// Whether `r` is what reading `bytes`, reached through the names `names`, gives once its
/// includes are read: its header reads (as an included file where `names` is not empty),
/// it includes nothing at the deepest level, and for each include, in file order, `loader`
/// answers bytes for `names` followed by the include's name that read, one level deeper,
/// to a complete file; `r` is [`combined`] of the header and those files.
#[verifier::opaque]
pub open spec fn combines<F: Fn(&[String]) -> Result<Vec<u8>, Error>>(
    loader: F,
    names: Seq<Seq<char>>,
    bytes: Seq<u8>,
    r: Result<LoadedModel, Error>,
) -> bool
    decreases MAX_INCLUDE_DEPTH - names.len(),
{
    match scanned(bytes, names.len() > 0) {
        Err(_) => false,
        Ok(h) => if h.includes.len() > 0 && names.len() >= MAX_INCLUDE_DEPTH {
            false
        } else {
            exists|kids: Seq<LoadedModel>, sources: Seq<Seq<u8>>|
                #![trigger combined(bytes, h, kids), sources.len()]
                kids.len() == h.includes.len() && sources.len() == kids.len() && answered_all(
                    loader,
                    names,
                    h.includes,
                    sources,
                ) && (forall|i: int|
                    #![trigger kids[i]]
                    0 <= i < kids.len() ==> combines(
                        loader,
                        names.push(lossy_utf8(h.includes[i])),
                        sources[i],
                        Ok::<LoadedModel, Error>(kids[i]),
                    ) && complete(kids[i])) && combined(bytes, h, kids) == r
        },
    }
}

/// Whether `l` is what reading `bytes`, reached through the names `names`, gives with the
/// files `loader` answers for its includes, as [`combines`] says.
pub open spec fn loads_through<F: Fn(&[String]) -> Result<Vec<u8>, Error>>(
    loader: F,
    names: Seq<Seq<char>>,
    bytes: Seq<u8>,
    l: LoadedModel,
) -> bool {
    combines(loader, names, bytes, Ok::<LoadedModel, Error>(l))
}

/// Whether `e` is what [`include_error`] makes of the error `inner` from the included file
/// `name`.
pub open spec fn wrapped(name: Seq<char>, inner: Error, e: Error) -> bool {
    if passes_through(inner) {
        e == inner
    } else {
        e matches Error::Include { path, error } && path@ == name && *error == inner
    }
}

/// Whether reading `bytes`, reached through the names `names`, can fail with `e` given
/// what `loader` answers: the header's own error; [`Error::IncludeTooDeep`] for a file that
/// includes another at the deepest level; an error `loader` answers for an include; an
/// error of reading, one level deeper, the bytes it answers, wrapped as [`include_error`]
/// does; or the error of combining files that all read ([`combines`]).
#[verifier::opaque]
pub open spec fn fails_through<F: Fn(&[String]) -> Result<Vec<u8>, Error>>(
    loader: F,
    names: Seq<Seq<char>>,
    bytes: Seq<u8>,
    e: Error,
) -> bool
    decreases MAX_INCLUDE_DEPTH - names.len(),
{
    match scanned(bytes, names.len() > 0) {
        Err(e2) => e == e2,
        Ok(h) => if names.len() >= MAX_INCLUDE_DEPTH {
            (h.includes.len() > 0 && e == Error::IncludeTooDeep) || combines(
                loader,
                names,
                bytes,
                Err::<LoadedModel, Error>(e),
            )
        } else {
            ||| combines(loader, names, bytes, Err::<LoadedModel, Error>(e))
            ||| exists|i: int|
                0 <= i < h.includes.len() && #[trigger] answers(
                    loader,
                    names,
                    lossy_utf8(h.includes[i]),
                    Err::<Vec<u8>, Error>(e),
                )
            ||| exists|i: int, v: Vec<u8>, inner: Error|
                #![trigger answers(loader, names, lossy_utf8(h.includes[i]), Ok::<Vec<u8>, Error>(v)), wrapped(lossy_utf8(h.includes[i]), inner, e)]
                0 <= i < h.includes.len() && answers(
                    loader,
                    names,
                    lossy_utf8(h.includes[i]),
                    Ok::<Vec<u8>, Error>(v),
                ) && fails_through(loader, names.push(lossy_utf8(h.includes[i])), v@, inner)
                    && wrapped(lossy_utf8(h.includes[i]), inner, e)
        },
    }
}

proof fn lemma_answers<F: Fn(&[String]) -> Result<Vec<u8>, Error>>(
    loader: F,
    names: Seq<Seq<char>>,
    name: Seq<char>,
    c: &[String],
    r: Result<Vec<u8>, Error>,
)
    requires
        loader.ensures((c,), r),
        names_of(c@) == names.push(name),
    ensures
        answers(loader, names, name, r),
{
    reveal(answers);
}

proof fn lemma_scan_failure<F: Fn(&[String]) -> Result<Vec<u8>, Error>>(
    loader: F,
    names: Seq<Seq<char>>,
    bytes: Seq<u8>,
    e: Error,
)
    requires
        scanned(bytes, names.len() > 0) == Err::<HeaderModel, Error>(e),
    ensures
        fails_through(loader, names, bytes, e),
{
    reveal(fails_through);
}

proof fn lemma_too_deep<F: Fn(&[String]) -> Result<Vec<u8>, Error>>(
    loader: F,
    names: Seq<Seq<char>>,
    bytes: Seq<u8>,
    h: HeaderModel,
)
    requires
        scanned(bytes, names.len() > 0) == Ok::<HeaderModel, Error>(h),
        h.includes.len() > 0,
        names.len() >= MAX_INCLUDE_DEPTH,
    ensures
        fails_through(loader, names, bytes, Error::IncludeTooDeep),
{
    reveal(fails_through);
}

proof fn lemma_loader_failure<F: Fn(&[String]) -> Result<Vec<u8>, Error>>(
    loader: F,
    names: Seq<Seq<char>>,
    bytes: Seq<u8>,
    h: HeaderModel,
    i: int,
    e: Error,
)
    requires
        scanned(bytes, names.len() > 0) == Ok::<HeaderModel, Error>(h),
        0 <= i < h.includes.len(),
        names.len() < MAX_INCLUDE_DEPTH,
        answers(loader, names, lossy_utf8(h.includes[i]), Err::<Vec<u8>, Error>(e)),
    ensures
        fails_through(loader, names, bytes, e),
{
    reveal(fails_through);
}

proof fn lemma_nested_failure<F: Fn(&[String]) -> Result<Vec<u8>, Error>>(
    loader: F,
    names: Seq<Seq<char>>,
    bytes: Seq<u8>,
    h: HeaderModel,
    i: int,
    v: Vec<u8>,
    inner: Error,
    e: Error,
)
    requires
        scanned(bytes, names.len() > 0) == Ok::<HeaderModel, Error>(h),
        0 <= i < h.includes.len(),
        names.len() < MAX_INCLUDE_DEPTH,
        answers(loader, names, lossy_utf8(h.includes[i]), Ok::<Vec<u8>, Error>(v)),
        fails_through(loader, names.push(lossy_utf8(h.includes[i])), v@, inner),
        wrapped(lossy_utf8(h.includes[i]), inner, e),
    ensures
        fails_through(loader, names, bytes, e),
{
    reveal(fails_through);
}

proof fn lemma_combines<F: Fn(&[String]) -> Result<Vec<u8>, Error>>(
    loader: F,
    names: Seq<Seq<char>>,
    bytes: Seq<u8>,
    h: HeaderModel,
    kids: Seq<LoadedModel>,
    sources: Seq<Seq<u8>>,
    r: Result<LoadedModel, Error>,
)
    requires
        scanned(bytes, names.len() > 0) == Ok::<HeaderModel, Error>(h),
        h.includes.len() > 0 ==> names.len() < MAX_INCLUDE_DEPTH,
        kids.len() == h.includes.len(),
        sources.len() == kids.len(),
        answered_all(loader, names, h.includes, sources),
        forall|i: int|
            #![trigger kids[i]]
            0 <= i < kids.len() ==> combines(
                loader,
                names.push(lossy_utf8(h.includes[i])),
                sources[i],
                Ok::<LoadedModel, Error>(kids[i]),
            ) && complete(kids[i]),
        combined(bytes, h, kids) == r,
    ensures
        combines(loader, names, bytes, r),
        r is Err ==> fails_through(loader, names, bytes, r->Err_0),
{
    reveal(combines);
    assert(combines(loader, names, bytes, r));
    reveal(fails_through);
}

/// Whether two answers of a loader agree: the same bytes, or the same error.
pub open spec fn same_answer(r1: Result<Vec<u8>, Error>, r2: Result<Vec<u8>, Error>) -> bool {
    match (r1, r2) {
        (Ok(a), Ok(b)) => a@ == b@,
        (Err(a), Err(b)) => a == b,
        _ => false,
    }
}

/// Whether `loader` gives one answer for each chain of names, as a loader that reads files
/// that do not change does.
pub open spec fn one_answer<F: Fn(&[String]) -> Result<Vec<u8>, Error>>(loader: F) -> bool {
    forall|c1: &[String], c2: &[String], r1: Result<Vec<u8>, Error>, r2: Result<Vec<u8>, Error>|
        #![trigger loader.ensures((c1,), r1), loader.ensures((c2,), r2)]
        loader.ensures((c1,), r1) && loader.ensures((c2,), r2) && names_of(c1@) == names_of(c2@)
            ==> same_answer(r1, r2)
}

proof fn lemma_one_answer<F: Fn(&[String]) -> Result<Vec<u8>, Error>>(
    loader: F,
    names: Seq<Seq<char>>,
    name: Seq<char>,
    r1: Result<Vec<u8>, Error>,
    r2: Result<Vec<u8>, Error>,
)
    requires
        one_answer(loader),
        answers(loader, names, name, r1),
        answers(loader, names, name, r2),
    ensures
        same_answer(r1, r2),
{
    reveal(answers);
    let c1 = choose|c: &[String]| #[trigger] loader.ensures((c,), r1) && names_of(c@) == names.push(name);
    let c2 = choose|c: &[String]| #[trigger] loader.ensures((c,), r2) && names_of(c@) == names.push(name);
    assert(loader.ensures((c1,), r1) && loader.ensures((c2,), r2));
}

proof fn lemma_one_source<F: Fn(&[String]) -> Result<Vec<u8>, Error>>(
    loader: F,
    names: Seq<Seq<char>>,
    name: Seq<char>,
    b: Seq<u8>,
    r: Result<Vec<u8>, Error>,
)
    requires
        one_answer(loader),
        answers_bytes(loader, names, name, b),
        answers(loader, names, name, r),
    ensures
        r matches Ok(v) && v@ == b,
{
    reveal(answers_bytes);
    let v = choose|v: Vec<u8>| v@ == b && #[trigger] answers(loader, names, name, Ok::<Vec<u8>, Error>(v));
    lemma_one_answer(loader, names, name, Ok::<Vec<u8>, Error>(v), r);
}

/// With a loader that gives one answer per chain of names, reading a file gives at most one
/// combination.
proof fn lemma_combines_unique<F: Fn(&[String]) -> Result<Vec<u8>, Error>>(
    loader: F,
    names: Seq<Seq<char>>,
    bytes: Seq<u8>,
    r1: Result<LoadedModel, Error>,
    r2: Result<LoadedModel, Error>,
)
    requires
        one_answer(loader),
        combines(loader, names, bytes, r1),
        combines(loader, names, bytes, r2),
    ensures
        r1 == r2,
    decreases MAX_INCLUDE_DEPTH - names.len(),
{
    reveal(combines);
    let h = scanned(bytes, names.len() > 0)->Ok_0;
    let (k1, s1) = choose|kids: Seq<LoadedModel>, sources: Seq<Seq<u8>>|
        #![trigger combined(bytes, h, kids), sources.len()]
        kids.len() == h.includes.len() && sources.len() == kids.len() && answered_all(
            loader,
            names,
            h.includes,
            sources,
        ) && (forall|i: int|
            #![trigger kids[i]]
            0 <= i < kids.len() ==> combines(
                loader,
                names.push(lossy_utf8(h.includes[i])),
                sources[i],
                Ok::<LoadedModel, Error>(kids[i]),
            ) && complete(kids[i])) && combined(bytes, h, kids) == r1;
    let (k2, s2) = choose|kids: Seq<LoadedModel>, sources: Seq<Seq<u8>>|
        #![trigger combined(bytes, h, kids), sources.len()]
        kids.len() == h.includes.len() && sources.len() == kids.len() && answered_all(
            loader,
            names,
            h.includes,
            sources,
        ) && (forall|i: int|
            #![trigger kids[i]]
            0 <= i < kids.len() ==> combines(
                loader,
                names.push(lossy_utf8(h.includes[i])),
                sources[i],
                Ok::<LoadedModel, Error>(kids[i]),
            ) && complete(kids[i])) && combined(bytes, h, kids) == r2;
    assert forall|i: int| 0 <= i < k1.len() implies k1[i] == k2[i] by {
        let nm = lossy_utf8(h.includes[i]);
        lemma_answered_at(loader, names, h.includes, s1, i);
        lemma_answered_at(loader, names, h.includes, s2, i);
        reveal(answers_bytes);
        let v = choose|v: Vec<u8>| v@ == s2[i] && #[trigger] answers(loader, names, nm, Ok::<Vec<u8>, Error>(v));
        lemma_one_source(loader, names, nm, s1[i], Ok::<Vec<u8>, Error>(v));
        assert(combines(loader, names.push(nm), s1[i], Ok::<LoadedModel, Error>(k1[i])));
        assert(combines(loader, names.push(nm), s2[i], Ok::<LoadedModel, Error>(k2[i])));
        lemma_combines_unique(
            loader,
            names.push(nm),
            s1[i],
            Ok::<LoadedModel, Error>(k1[i]),
            Ok::<LoadedModel, Error>(k2[i]),
        );
    }
    assert(k1 =~= k2);
}

/// With a loader that gives one answer per chain of names, a file that has a combination
/// fails with no error.
proof fn lemma_fails_exclusive<F: Fn(&[String]) -> Result<Vec<u8>, Error>>(
    loader: F,
    names: Seq<Seq<char>>,
    bytes: Seq<u8>,
    e: Error,
    l: LoadedModel,
)
    requires
        one_answer(loader),
        combines(loader, names, bytes, Ok::<LoadedModel, Error>(l)),
    ensures
        !fails_through(loader, names, bytes, e),
    decreases MAX_INCLUDE_DEPTH - names.len(),
{
    reveal(fails_through);
    reveal(combines);
    let h = scanned(bytes, names.len() > 0)->Ok_0;
    if combines(loader, names, bytes, Err::<LoadedModel, Error>(e)) {
        lemma_combines_unique(
            loader,
            names,
            bytes,
            Err::<LoadedModel, Error>(e),
            Ok::<LoadedModel, Error>(l),
        );
    } else if fails_through(loader, names, bytes, e) {
        let (kids, sources) = choose|kids: Seq<LoadedModel>, sources: Seq<Seq<u8>>|
            #![trigger combined(bytes, h, kids), sources.len()]
            kids.len() == h.includes.len() && sources.len() == kids.len() && answered_all(
                loader,
                names,
                h.includes,
                sources,
            ) && (forall|i: int|
                #![trigger kids[i]]
                0 <= i < kids.len() ==> combines(
                    loader,
                    names.push(lossy_utf8(h.includes[i])),
                    sources[i],
                    Ok::<LoadedModel, Error>(kids[i]),
                ) && complete(kids[i])) && combined(bytes, h, kids) == Ok::<LoadedModel, Error>(l);
        if exists|i: int|
            0 <= i < h.includes.len() && #[trigger] answers(
                loader,
                names,
                lossy_utf8(h.includes[i]),
                Err::<Vec<u8>, Error>(e),
            ) {
            let i = choose|i: int|
                0 <= i < h.includes.len() && #[trigger] answers(
                    loader,
                    names,
                    lossy_utf8(h.includes[i]),
                    Err::<Vec<u8>, Error>(e),
                );
            lemma_answered_at(loader, names, h.includes, sources, i);
            lemma_one_source(
                loader,
                names,
                lossy_utf8(h.includes[i]),
                sources[i],
                Err::<Vec<u8>, Error>(e),
            );
        } else {
            let (i, v, inner) = choose|i: int, v: Vec<u8>, inner: Error|
                #![trigger answers(loader, names, lossy_utf8(h.includes[i]), Ok::<Vec<u8>, Error>(v)), wrapped(lossy_utf8(h.includes[i]), inner, e)]
                0 <= i < h.includes.len() && answers(
                    loader,
                    names,
                    lossy_utf8(h.includes[i]),
                    Ok::<Vec<u8>, Error>(v),
                ) && fails_through(loader, names.push(lossy_utf8(h.includes[i])), v@, inner)
                    && wrapped(lossy_utf8(h.includes[i]), inner, e);
            let nm = lossy_utf8(h.includes[i]);
            lemma_answered_at(loader, names, h.includes, sources, i);
            lemma_one_source(loader, names, nm, sources[i], Ok::<Vec<u8>, Error>(v));
            assert(combines(loader, names.push(nm), sources[i], Ok::<LoadedModel, Error>(kids[i])));
            lemma_fails_exclusive(loader, names.push(nm), v@, inner, kids[i]);
        }
    }
}

/// With a loader that gives one answer per chain of names, a file that loads as `l` loads
/// as nothing else and fails with no error.
pub proof fn one_answer_decides_the_load<F: Fn(&[String]) -> Result<Vec<u8>, Error>>(
    loader: F,
    names: Seq<Seq<char>>,
    bytes: Seq<u8>,
    l: LoadedModel,
)
    requires
        one_answer(loader),
        loads_through(loader, names, bytes, l),
    ensures
        forall|l2: LoadedModel| #[trigger] loads_through(loader, names, bytes, l2) ==> l2 == l,
        forall|e: Error| !#[trigger] fails_through(loader, names, bytes, e),
{
    assert forall|l2: LoadedModel| #[trigger] loads_through(loader, names, bytes, l2) implies l2 == l by {
        lemma_combines_unique(
            loader,
            names,
            bytes,
            Ok::<LoadedModel, Error>(l2),
            Ok::<LoadedModel, Error>(l),
        );
    }
    assert forall|e: Error| !#[trigger] fails_through(loader, names, bytes, e) by {
        lemma_fails_exclusive(loader, names, bytes, e, l);
    }
}

proof fn lemma_error_decided<F: Fn(&[String]) -> Result<Vec<u8>, Error>>(
    loader: F,
    names: Seq<Seq<char>>,
    bytes: Seq<u8>,
    e: Error,
)
    requires
        fails_through(loader, names, bytes, e),
    ensures
        one_answer(loader) ==> forall|l: LoadedModel| !#[trigger] loads_through(loader, names, bytes, l),
{
    if one_answer(loader) {
        assert forall|l: LoadedModel| !#[trigger] loads_through(loader, names, bytes, l) by {
            if loads_through(loader, names, bytes, l) {
                one_answer_decides_the_load(loader, names, bytes, l);
            }
        }
    }
}

proof fn lemma_success_decided<F: Fn(&[String]) -> Result<Vec<u8>, Error>>(
    loader: F,
    names: Seq<Seq<char>>,
    bytes: Seq<u8>,
    l0: LoadedModel,
)
    requires
        loads_through(loader, names, bytes, l0),
    ensures
        one_answer(loader) ==> forall|l: LoadedModel| #[trigger] loads_through(loader, names, bytes, l) ==> l == l0,
{
    if one_answer(loader) {
        one_answer_decides_the_load(loader, names, bytes, l0);
    }
}

/// Whether every call of `loader` fails with [`Error::IncludeUnsupported`], as it does for a
/// file read from memory alone.
pub open spec fn refuses<F: Fn(&[String]) -> Result<Vec<u8>, Error>>(loader: F) -> bool {
    forall|c: &[String], res: Result<Vec<u8>, Error>|
        #[trigger] loader.ensures((c,), res) ==> res == Err::<Vec<u8>, Error>(
            Error::IncludeUnsupported,
        )
}

/// Reads a file and, through `loader`, the files it includes, at any depth up to
/// [`MAX_INCLUDE_DEPTH`]. `chain` holds the names of the files that lead to this one, as
/// written; for each include, in file order, the loader receives the chain followed by the
/// include's name as written, and the bytes it answers are read as that file, one level
/// deeper.
///
/// The file's own header is read as [`scanned`] reads it, and its errors come first. A
/// success is a combination of the file with what the answered bytes give
/// ([`loads_through`]); for a file without includes the result is [`combined`]'s alone. An
/// error is one that a file or an answer of the loader really gives ([`fails_through`]).
/// With a loader that gives [`one_answer`] per chain of names, a file that has such a
/// combination is read as it, with no error. A file at the deepest level that includes another fails with [`Error::IncludeTooDeep`];
/// where the loader [`refuses`] every file, a file with includes fails with
/// [`Error::IncludeUnsupported`].
pub fn load_nested<F: Fn(&[String]) -> Result<Vec<u8>, Error>>(
    bytes: &[u8],
    chain: &mut Vec<String>,
    loader: &F,
) -> (r: Result<Loaded, Error>)
    requires
        old(chain)@.len() <= MAX_INCLUDE_DEPTH,
        forall|c: &[String]| #[trigger] loader.requires((c,)),
    ensures
        scanned(bytes@, old(chain)@.len() > 0) matches Err(e) ==> (r matches Err(e2) && e2 == e),
        r matches Ok(l) ==> complete(l@) && loads_through(*loader, names_of(old(chain)@), bytes@, l@),
        r matches Err(e) ==> fails_through(*loader, names_of(old(chain)@), bytes@, e),
        one_answer(*loader) ==> forall|l: LoadedModel|
            #[trigger] loads_through(*loader, names_of(old(chain)@), bytes@, l) ==> (r matches Ok(l2)
                && l2@ == l),
        match scanned(bytes@, old(chain)@.len() > 0) {
            Ok(h) => h.includes.len() == 0 ==> match combined(bytes@, h, Seq::empty()) {
                Err(e) => r matches Err(e2) && e2 == e,
                Ok(l) => r matches Ok(l2) && l2@ == l,
            },
            Err(_) => true,
        },
        match scanned(bytes@, old(chain)@.len() > 0) {
            Ok(h) => h.includes.len() > 0 && refuses(*loader) && old(chain)@.len()
                < MAX_INCLUDE_DEPTH ==> (r matches Err(e) && e == Error::IncludeUnsupported),
            Err(_) => true,
        },
        match scanned(bytes@, old(chain)@.len() > 0) {
            Ok(h) => h.includes.len() > 0 && old(chain)@.len() == MAX_INCLUDE_DEPTH ==> (r matches Err(
                e,
            ) && e == Error::IncludeTooDeep),
            Err(_) => true,
        },
        r is Ok ==> final(chain)@ == old(chain)@,
    decreases MAX_INCLUDE_DEPTH - old(chain)@.len(),
{
    let ghost names = names_of(old(chain)@);
    let header = match scan_header(bytes, chain.len() > 0) {
        Ok(header) => header,
        Err(e) => {
            proof {
                lemma_scan_failure(*loader, names, bytes@, e);
                lemma_error_decided(*loader, names, bytes@, e);
            }
            return Err(e);
        },
    };
    let ghost h = header@;
    let n = header.includes.len();
    let mut kids: Vec<Loaded> = Vec::new();
    let ghost mut sources: Seq<Seq<u8>> = Seq::empty();
    proof {
        reveal(answered_all);
    }
    let mut i: usize = 0;
    while i < n
        invariant
            n == header.includes@.len(),
            h == header@,
            scanned(bytes@, old(chain)@.len() > 0) == Ok::<HeaderModel, Error>(h),
            names == names_of(old(chain)@),
            i <= n,
            kids@.len() == i,
            chain@ == old(chain)@,
            chain@.len() <= MAX_INCLUDE_DEPTH,
            forall|c: &[String]| #[trigger] loader.requires((c,)),
            forall|k: int| 0 <= k < kids@.len() ==> complete(#[trigger] kids@[k]@),
            sources.len() == i,
            answered_all(*loader, names, h.includes, sources),
            forall|k: int|
                #![trigger kids@[k]]
                0 <= k < kids@.len() ==> combines(
                    *loader,
                    names.push(lossy_utf8(h.includes[k])),
                    sources[k],
                    Ok::<LoadedModel, Error>(kids@[k]@),
                ),
            refuses(*loader) && old(chain)@.len() < MAX_INCLUDE_DEPTH ==> i == 0,
            old(chain)@.len() == MAX_INCLUDE_DEPTH ==> i == 0,
            i > 0 ==> old(chain)@.len() < MAX_INCLUDE_DEPTH,
        decreases n - i,
    {
        if let Err(e) = check_depth(chain.len()) {
            proof {
                lemma_too_deep(*loader, names, bytes@, h);
                lemma_error_decided(*loader, names, bytes@, e);
            }
            return Err(e);
        }
        let name = include_name(header.includes[i].as_slice());
        let ghost nm = lossy_utf8(h.includes[i as int]);
        assert(name@ == nm);
        chain.push(name.clone());
        proof {
            lemma_names_push(old(chain)@, name);
        }
        let asked = chain.as_slice();
        let answer = loader(asked);
        proof {
            lemma_answers(*loader, names, nm, asked, answer);
        }
        let data = match answer {
            Ok(data) => data,
            Err(e) => {
                proof {
                    lemma_loader_failure(*loader, names, bytes@, h, i as int, e);
                    lemma_error_decided(*loader, names, bytes@, e);
                }
                return Err(e);
            },
        };
        let kid = match load_nested(data.as_slice(), chain, loader) {
            Ok(kid) => kid,
            Err(e) => {
                let wrapped_error = include_error(name, e);
                proof {
                    lemma_nested_failure(
                        *loader,
                        names,
                        bytes@,
                        h,
                        i as int,
                        data,
                        e,
                        wrapped_error,
                    );
                    lemma_error_decided(*loader, names, bytes@, wrapped_error);
                }
                return Err(wrapped_error);
            },
        };
        chain.pop();
        proof {
            assert(chain@ =~= old(chain)@);
        }
        let ghost kid_model = kid@;
        kids.push(kid);
        proof {
            assert(answers_bytes(*loader, names, nm, data@)) by {
                reveal(answers_bytes);
            }
            lemma_answered_push(*loader, names, h.includes, sources, data@);
            sources = sources.push(data@);
            assert(kids@[i as int]@ == kid_model);
        }
        i += 1;
    }
    proof {
        assert(h.segments == header@.segments);
    }
    let ghost kid_list = kids@;
    let r = combine(bytes, header, kids);
    proof {
        let ks = loaded_view(kid_list);
        assert(ks.len() == h.includes.len());
        assert forall|k: int| #![trigger ks[k]] 0 <= k < ks.len() implies combines(
            *loader,
            names.push(lossy_utf8(h.includes[k])),
            sources[k],
            Ok::<LoadedModel, Error>(ks[k]),
        ) && complete(ks[k]) by {
            assert(ks[k] == kid_list[k]@);
            assert(kid_list[k] == kid_list[k]);
        }
        if n == 0 {
            assert(ks =~= Seq::<LoadedModel>::empty());
        }
        let cr = combined(bytes@, h, ks);
        lemma_combines(*loader, names, bytes@, h, ks, sources, cr);
        match cr {
            Ok(l) => lemma_success_decided(*loader, names, bytes@, l),
            Err(e) => lemma_error_decided(*loader, names, bytes@, e),
        }
    }
    r
}

} // verus!
