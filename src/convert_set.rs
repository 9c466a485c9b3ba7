//! The arguments that name a font representation (`prefix:payload`), and the
//! check of a conversion between two of them.
use vstd::prelude::*;

verus! {

// ---------------------------------------------------------------------------
// Text model
// ---------------------------------------------------------------------------

/// `s` holds no ':'.
pub open spec fn colon_free(s: Seq<char>) -> bool {
    forall|j: int| 0 <= j < s.len() ==> s[j] != ':'
}

/// `k` is the position of the first ':' in `s`.
pub open spec fn is_first_colon(s: Seq<char>, k: int) -> bool {
    &&& 0 <= k < s.len()
    &&& s[k] == ':'
    &&& colon_free(s.take(k))
}

/// The position of the first ':' in `s` (meaningful when `s` holds one).
pub open spec fn first_colon(s: Seq<char>) -> int {
    choose|k: int| is_first_colon(s, k)
}

/// The fields of `s` between the ':' separators, as `str::split(':')` gives
/// them: always at least one, possibly empty.
pub open spec fn split_colon(s: Seq<char>) -> Seq<Seq<char>>
    decreases s.len(),
{
    if s.len() == 0 {
        seq![Seq::empty()]
    } else {
        let p = split_colon(s.drop_last());
        if s.last() == ':' {
            p.push(Seq::empty())
        } else {
            p.update(p.len() - 1, p.last().push(s.last()))
        }
    }
}

/// The fields joined with ':' between them (the inverse of `split_colon` on
/// fields that hold no ':').
pub open spec fn join_colon(fs: Seq<Seq<char>>) -> Seq<char>
    decreases fs.len(),
{
    if fs.len() == 0 {
        Seq::empty()
    } else if fs.len() == 1 {
        fs[0]
    } else {
        join_colon(fs.drop_last()) + seq![':'] + fs.last()
    }
}

/// The text of each slice.
pub open spec fn views(v: Seq<&str>) -> Seq<Seq<char>> {
    v.map_values(|f: &str| f@)
}

pub proof fn lemma_split_len(s: Seq<char>)
    ensures
        split_colon(s).len() >= 1,
    decreases s.len(),
{
    if s.len() > 0 {
        lemma_split_len(s.drop_last());
    }
}

/// Appending text without ':' extends the last field.
pub proof fn lemma_split_append_free(x: Seq<char>, y: Seq<char>)
    requires
        colon_free(y),
    ensures
        ({
            let p = split_colon(x);
            split_colon(x + y) == p.update(p.len() - 1, p.last() + y)
        }),
    decreases y.len(),
{
    lemma_split_len(x);
    let p = split_colon(x);
    if y.len() == 0 {
        assert(x + y =~= x);
        assert(p.last() + y =~= p.last());
        assert(p.update(p.len() - 1, p.last() + y) =~= p);
    } else {
        let y1 = y.drop_last();
        assert(colon_free(y1)) by {
            assert forall|j: int| 0 <= j < y1.len() implies y1[j] != ':' by {
                assert(y1[j] == y[j]);
            }
        }
        lemma_split_append_free(x, y1);
        assert((x + y).drop_last() =~= x + y1);
        assert((x + y).last() == y.last());
        assert(y[y.len() - 1] != ':');
        let q = split_colon(x + y1);
        assert(q.last() == p.last() + y1);
        assert((p.last() + y1).push(y.last()) =~= p.last() + y);
        assert(q.update(q.len() - 1, q.last().push(y.last())) =~= p.update(
            p.len() - 1,
            p.last() + y,
        ));
    }
}

/// A ':' followed by text without ':' starts one more field.
pub proof fn lemma_split_append_field(x: Seq<char>, y: Seq<char>)
    requires
        colon_free(y),
    ensures
        split_colon(x + seq![':'] + y) == split_colon(x).push(y),
{
    let x1 = x + seq![':'];
    assert(x1.drop_last() =~= x);
    assert(split_colon(x1) == split_colon(x).push(Seq::empty()));
    lemma_split_append_free(x1, y);
    let p = split_colon(x1);
    assert(Seq::<char>::empty() + y =~= y);
    assert(p.update(p.len() - 1, p.last() + y) =~= split_colon(x).push(y));
}

/// Splitting fields joined with ':' gives them back.
pub proof fn lemma_split_join(fs: Seq<Seq<char>>)
    requires
        fs.len() >= 1,
        forall|i: int| 0 <= i < fs.len() ==> colon_free(#[trigger] fs[i]),
    ensures
        split_colon(join_colon(fs)) == fs,
    decreases fs.len(),
{
    if fs.len() == 1 {
        lemma_split_append_free(Seq::empty(), fs[0]);
        assert(Seq::<char>::empty() + fs[0] =~= fs[0]);
        assert(split_colon(Seq::<char>::empty()) == seq![Seq::<char>::empty()]);
        assert(seq![Seq::<char>::empty()].update(0, Seq::<char>::empty() + fs[0]) =~= fs);
    } else {
        let init = fs.drop_last();
        assert forall|i: int| 0 <= i < init.len() implies colon_free(#[trigger] init[i]) by {
            assert(init[i] == fs[i]);
        }
        lemma_split_join(init);
        assert(colon_free(fs[fs.len() - 1]));
        lemma_split_append_field(join_colon(init), fs.last());
        assert(init.push(fs.last()) =~= fs);
    }
}

proof fn lemma_first_colon(s: Seq<char>, k: int)
    requires
        is_first_colon(s, k),
    ensures
        first_colon(s) == k,
{
    let c = first_colon(s);
    assert(is_first_colon(s, c));
    if c < k {
        assert(s.take(k)[c] == s[c]);
    } else if c > k {
        assert(s.take(c)[k] == s[k]);
    }
}

// ---------------------------------------------------------------------------
// Text helpers
// ---------------------------------------------------------------------------

fn str_eq(a: &str, b: &str) -> (r: bool)
    ensures
        r == (a@ == b@),
{
    let n = a.unicode_len();
    if n != b.unicode_len() {
        return false;
    }
    let mut i: usize = 0;
    while i < n
        invariant
            n == a@.len(),
            n == b@.len(),
            i <= n,
            forall|j: int| 0 <= j < i ==> a@[j] == b@[j],
        decreases n - i,
    {
        if a.get_char(i) != b.get_char(i) {
            return false;
        }
        i = i + 1;
    }
    assert(a@ =~= b@);
    true
}

fn find_colon(s: &str) -> (r: Option<usize>)
    ensures
        match r {
            Some(k) => is_first_colon(s@, k as int),
            None => colon_free(s@),
        },
{
    let n = s.unicode_len();
    let mut i: usize = 0;
    while i < n
        invariant
            n == s@.len(),
            i <= n,
            forall|j: int| 0 <= j < i ==> s@[j] != ':',
        decreases n - i,
    {
        if s.get_char(i) == ':' {
            assert(colon_free(s@.take(i as int))) by {
                assert forall|j: int| 0 <= j < i implies s@.take(i as int)[j] != ':' by {
                    assert(s@.take(i as int)[j] == s@[j]);
                }
            }
            return Some(i);
        }
        i = i + 1;
    }
    None
}

fn split_colon_fields<'a>(s: &'a str) -> (r: Vec<&'a str>)
    ensures
        views(r@) == split_colon(s@),
{
    let n = s.unicode_len();
    let mut r: Vec<&'a str> = Vec::new();
    let mut start: usize = 0;
    let mut i: usize = 0;
    assert(s@.subrange(0, 0) =~= Seq::<char>::empty());
    assert(views(r@).push(s@.subrange(0, 0)) =~= seq![Seq::<char>::empty()]);
    while i < n
        invariant
            n == s@.len(),
            start <= i <= n,
            views(r@).push(s@.subrange(start as int, i as int)) == split_colon(
                s@.subrange(0, i as int),
            ),
        decreases n - i,
    {
        let c = s.get_char(i);
        let ghost pre = s@.subrange(0, i as int);
        let ghost cur = s@.subrange(0, i as int + 1);
        assert(cur.drop_last() =~= pre);
        assert(cur.last() == c);
        if c == ':' {
            let f = s.substring_char(start, i);
            proof {
                assert(views(r@.push(f)) =~= views(r@).push(f@));
                assert(s@.subrange(i as int + 1, i as int + 1) =~= Seq::<char>::empty());
            }
            r.push(f);
            start = i + 1;
        } else {
            proof {
                assert(s@.subrange(start as int, i as int + 1) =~= s@.subrange(
                    start as int,
                    i as int,
                ).push(c));
                let p = views(r@).push(s@.subrange(start as int, i as int));
                assert(p.update(p.len() - 1, p.last().push(c)) =~= views(r@).push(
                    s@.subrange(start as int, i as int + 1),
                ));
            }
        }
        i = i + 1;
    }
    let f = s.substring_char(start, n);
    proof {
        assert(views(r@.push(f)) =~= views(r@).push(f@));
        assert(s@.subrange(0, n as int) =~= s@);
    }
    r.push(f);
    r
}

// ---------------------------------------------------------------------------
// Arguments
// ---------------------------------------------------------------------------

/// A representation of a font set, named by a `prefix:payload` argument.
#[derive(Debug, Clone, Copy, PartialEq, Eq)]
pub enum ConvertSetArg<'a> {
    BinFileSet { sd_path: &'a str, sd_2_path: &'a str, hd_path: &'a str, hd_2_path: &'a str },
    BinFileSetNorm { dir: &'a str, ident: Option<&'a str> },
    TileSetGrids { sd_path: &'a str, hd_path: &'a str },
    TileSetGridsNorm { dir: &'a str, ident: Option<&'a str> },
    TileSetDir(&'a str),
    SymbolSetDir(&'a str),
}

/// The model of a `ConvertSetArg`: its kind and its fields as text.
pub enum ArgView {
    BinFileSet { sd_path: Seq<char>, sd_2_path: Seq<char>, hd_path: Seq<char>, hd_2_path: Seq<char> },
    BinFileSetNorm { dir: Seq<char>, ident: Option<Seq<char>> },
    TileSetGrids { sd_path: Seq<char>, hd_path: Seq<char> },
    TileSetGridsNorm { dir: Seq<char>, ident: Option<Seq<char>> },
    TileSetDir(Seq<char>),
    SymbolSetDir(Seq<char>),
}

/// The text of an optional slice.
pub open spec fn opt_view(o: Option<&str>) -> Option<Seq<char>> {
    match o {
        Some(s) => Some(s@),
        None => None,
    }
}

impl<'a> View for ConvertSetArg<'a> {
    type V = ArgView;

    open spec fn view(&self) -> ArgView {
        match *self {
            ConvertSetArg::BinFileSet { sd_path, sd_2_path, hd_path, hd_2_path } => ArgView::BinFileSet {
                sd_path: sd_path@,
                sd_2_path: sd_2_path@,
                hd_path: hd_path@,
                hd_2_path: hd_2_path@,
            },
            ConvertSetArg::BinFileSetNorm { dir, ident } => ArgView::BinFileSetNorm {
                dir: dir@,
                ident: opt_view(ident),
            },
            ConvertSetArg::TileSetGrids { sd_path, hd_path } => ArgView::TileSetGrids {
                sd_path: sd_path@,
                hd_path: hd_path@,
            },
            ConvertSetArg::TileSetGridsNorm { dir, ident } => ArgView::TileSetGridsNorm {
                dir: dir@,
                ident: opt_view(ident),
            },
            ConvertSetArg::TileSetDir(dir) => ArgView::TileSetDir(dir@),
            ConvertSetArg::SymbolSetDir(dir) => ArgView::SymbolSetDir(dir@),
        }
    }
}

impl ArgView {
    /// The prefix that names this kind of argument.
    pub open spec fn prefix(self) -> Seq<char> {
        match self {
            ArgView::BinFileSet { .. } => "binset"@,
            ArgView::BinFileSetNorm { .. } => "binsetnorm"@,
            ArgView::TileSetGrids { .. } => "tilesetgrids"@,
            ArgView::TileSetGridsNorm { .. } => "tilesetgridsnorm"@,
            ArgView::TileSetDir(_) => "tilesetdir"@,
            ArgView::SymbolSetDir(_) => "symsetdir"@,
        }
    }

    /// Both arguments are of one kind.
    pub open spec fn same_kind(self, other: ArgView) -> bool {
        ||| (self is BinFileSet && other is BinFileSet)
        ||| (self is BinFileSetNorm && other is BinFileSetNorm)
        ||| (self is TileSetGrids && other is TileSetGrids)
        ||| (self is TileSetGridsNorm && other is TileSetGridsNorm)
        ||| (self is TileSetDir && other is TileSetDir)
        ||| (self is SymbolSetDir && other is SymbolSetDir)
    }
}

impl<'a> ConvertSetArg<'a> {
    /// The prefix that names the kind of this argument.
    pub fn prefix(&self) -> (r: &'static str)
        ensures
            r@ == self@.prefix(),
    {
        match self {
            ConvertSetArg::BinFileSet { .. } => "binset",
            ConvertSetArg::BinFileSetNorm { .. } => "binsetnorm",
            ConvertSetArg::TileSetGrids { .. } => "tilesetgrids",
            ConvertSetArg::TileSetGridsNorm { .. } => "tilesetgridsnorm",
            ConvertSetArg::TileSetDir(_) => "tilesetdir",
            ConvertSetArg::SymbolSetDir(_) => "symsetdir",
        }
    }

    /// Whether both arguments are of one kind.
    pub fn same_kind(&self, other: &ConvertSetArg) -> (r: bool)
        ensures
            r == self@.same_kind(other@),
    {
        match (self, other) {
            (ConvertSetArg::BinFileSet { .. }, ConvertSetArg::BinFileSet { .. })
            | (ConvertSetArg::BinFileSetNorm { .. }, ConvertSetArg::BinFileSetNorm { .. })
            | (ConvertSetArg::TileSetGrids { .. }, ConvertSetArg::TileSetGrids { .. })
            | (ConvertSetArg::TileSetGridsNorm { .. }, ConvertSetArg::TileSetGridsNorm { .. })
            | (ConvertSetArg::TileSetDir(_), ConvertSetArg::TileSetDir(_))
            | (ConvertSetArg::SymbolSetDir(_), ConvertSetArg::SymbolSetDir(_)) => true,
            _ => false,
        }
    }
}

// ---------------------------------------------------------------------------
// Errors
// ---------------------------------------------------------------------------

/// An argument without a known prefix.
#[derive(Debug, PartialEq, Eq)]
pub enum InvalidConvertArgError {
    InvalidPrefix(String),
    NoPrefix,
}

/// An argument that names no representation.
#[derive(Debug, PartialEq, Eq)]
pub enum InvalidConvertSetArgError {
    InvalidConvertArgError(InvalidConvertArgError),
    BinSetInvalidArguments(&'static str),
    TileSetGridsInvalidArguments(&'static str),
}

/// The model of an `InvalidConvertSetArgError`.
pub enum ArgErrorView {
    InvalidPrefix(Seq<char>),
    NoPrefix,
    BinSetInvalidArguments(Seq<char>),
    TileSetGridsInvalidArguments(Seq<char>),
}

impl View for InvalidConvertSetArgError {
    type V = ArgErrorView;

    open spec fn view(&self) -> ArgErrorView {
        match self {
            InvalidConvertSetArgError::InvalidConvertArgError(
                InvalidConvertArgError::InvalidPrefix(p),
            ) => ArgErrorView::InvalidPrefix(p@),
            InvalidConvertSetArgError::InvalidConvertArgError(InvalidConvertArgError::NoPrefix) => ArgErrorView::NoPrefix,
            InvalidConvertSetArgError::BinSetInvalidArguments(m) => ArgErrorView::BinSetInvalidArguments(m@),
            InvalidConvertSetArgError::TileSetGridsInvalidArguments(m) => ArgErrorView::TileSetGridsInvalidArguments(m@),
        }
    }
}

/// The message of an argument with fewer fields than its kind takes.
pub open spec fn too_few() -> Seq<char> {
    "too few arguments"@
}

/// The message of an argument with more fields than its kind takes.
pub open spec fn too_many() -> Seq<char> {
    "too many arguments"@
}

/// The model of what `identify_convert_set_arg` returns.
pub open spec fn arg_result_view(r: Result<ConvertSetArg, InvalidConvertSetArgError>) -> Result<ArgView, ArgErrorView> {
    match r {
        Ok(a) => Ok(a@),
        Err(e) => Err(e@),
    }
}

// ---------------------------------------------------------------------------
// Grammar
// ---------------------------------------------------------------------------

/// The directory and optional identifier of a `*norm` payload: one or two
/// fields.
pub open spec fn norm_args_spec(payload: Seq<char>) -> Result<(Seq<char>, Option<Seq<char>>), ArgErrorView> {
    let f = split_colon(payload);
    if f.len() > 2 {
        Err(ArgErrorView::BinSetInvalidArguments(too_many()))
    } else {
        Ok((f[0], if f.len() == 2 { Some(f[1]) } else { None }))
    }
}

/// What an argument names, or why it names nothing.
pub open spec fn identify_spec(s: Seq<char>) -> Result<ArgView, ArgErrorView> {
    if colon_free(s) {
        Err(ArgErrorView::NoPrefix)
    } else {
        let k = first_colon(s);
        let prefix = s.take(k);
        let payload = s.skip(k + 1);
        let f = split_colon(payload);
        if prefix == "binset"@ {
            if f.len() < 4 {
                Err(ArgErrorView::BinSetInvalidArguments(too_few()))
            } else if f.len() > 4 {
                Err(ArgErrorView::BinSetInvalidArguments(too_many()))
            } else {
                Ok(ArgView::BinFileSet { sd_path: f[0], sd_2_path: f[1], hd_path: f[2], hd_2_path: f[3] })
            }
        } else if prefix == "binsetnorm"@ {
            if f.len() > 2 {
                Err(ArgErrorView::BinSetInvalidArguments(too_many()))
            } else {
                Ok(ArgView::BinFileSetNorm { dir: f[0], ident: if f.len() == 2 { Some(f[1]) } else { None } })
            }
        } else if prefix == "tilesetgrids"@ {
            if f.len() < 2 {
                Err(ArgErrorView::TileSetGridsInvalidArguments(too_few()))
            } else if f.len() > 2 {
                Err(ArgErrorView::TileSetGridsInvalidArguments(too_many()))
            } else {
                Ok(ArgView::TileSetGrids { sd_path: f[0], hd_path: f[1] })
            }
        } else if prefix == "tilesetgridsnorm"@ {
            if f.len() > 2 {
                Err(ArgErrorView::TileSetGridsInvalidArguments(too_many()))
            } else {
                Ok(ArgView::TileSetGridsNorm { dir: f[0], ident: if f.len() == 2 { Some(f[1]) } else { None } })
            }
        } else if prefix == "tilesetdir"@ {
            Ok(ArgView::TileSetDir(payload))
        } else if prefix == "symsetdir"@ {
            Ok(ArgView::SymbolSetDir(payload))
        } else {
            Err(ArgErrorView::InvalidPrefix(prefix))
        }
    }
}

/// Splits the payload of a `*norm` argument into a directory and an optional
/// identifier.
pub fn argument_norm_args(arg: &str) -> (r: Result<(&str, Option<&str>), InvalidConvertSetArgError>)
    ensures
        match r {
            Ok((dir, ident)) => norm_args_spec(arg@) == Ok::<_, ArgErrorView>((dir@, opt_view(ident))),
            Err(e) => norm_args_spec(arg@) == Err::<(Seq<char>, Option<Seq<char>>), _>(e@),
        },
{
    let args = split_colon_fields(arg);
    proof {
        lemma_split_len(arg@);
    }
    if args.len() > 2 {
        return Err(InvalidConvertSetArgError::BinSetInvalidArguments("too many arguments"));
    }
    let dir = args[0];
    let ident = if args.len() == 2 { Some(args[1]) } else { None };
    assert(views(args@)[0] == args@[0]@);
    assert(args.len() == 2 ==> views(args@)[1] == args@[1]@);
    Ok((dir, ident))
}

fn too_few_arguments() -> (r: &'static str)
    ensures
        r@ == too_few(),
{
    "too few arguments"
}

fn too_many_arguments() -> (r: &'static str)
    ensures
        r@ == too_many(),
{
    "too many arguments"
}

/// Reads an argument of the form `prefix:payload` as the representation it
/// names.
pub fn identify_convert_set_arg(input: &str) -> (r: Result<ConvertSetArg, InvalidConvertSetArgError>)
    ensures
        arg_result_view(r) == identify_spec(input@),
{
    let k = match find_colon(input) {
        Some(k) => k,
        None => {
            return Err(InvalidConvertSetArgError::InvalidConvertArgError(InvalidConvertArgError::NoPrefix));
        },
    };
    proof {
        lemma_first_colon(input@, k as int);
    }
    let n = input.unicode_len();
    let prefix = input.substring_char(0, k);
    let payload = input.substring_char(k + 1, n);
    assert(prefix@ =~= input@.take(k as int));
    assert(payload@ =~= input@.skip(k + 1));
    if str_eq(prefix, "binset") {
        let files = split_colon_fields(payload);
        if files.len() < 4 {
            return Err(InvalidConvertSetArgError::BinSetInvalidArguments(too_few_arguments()));
        } else if files.len() > 4 {
            return Err(InvalidConvertSetArgError::BinSetInvalidArguments(too_many_arguments()));
        }
        proof {
            assert(views(files@)[0] == files@[0]@);
            assert(views(files@)[1] == files@[1]@);
            assert(views(files@)[2] == files@[2]@);
            assert(views(files@)[3] == files@[3]@);
        }
        Ok(ConvertSetArg::BinFileSet {
            sd_path: files[0],
            sd_2_path: files[1],
            hd_path: files[2],
            hd_2_path: files[3],
        })
    } else if str_eq(prefix, "binsetnorm") {
        let (dir, ident) = argument_norm_args(payload)?;
        Ok(ConvertSetArg::BinFileSetNorm { dir, ident })
    } else if str_eq(prefix, "tilesetgrids") {
        let files = split_colon_fields(payload);
        if files.len() < 2 {
            return Err(InvalidConvertSetArgError::TileSetGridsInvalidArguments(too_few_arguments()));
        } else if files.len() > 2 {
            return Err(InvalidConvertSetArgError::TileSetGridsInvalidArguments(too_many_arguments()));
        }
        proof {
            assert(views(files@)[0] == files@[0]@);
            assert(views(files@)[1] == files@[1]@);
        }
        Ok(ConvertSetArg::TileSetGrids { sd_path: files[0], hd_path: files[1] })
    } else if str_eq(prefix, "tilesetgridsnorm") {
        match argument_norm_args(payload) {
            Ok((dir, ident)) => Ok(ConvertSetArg::TileSetGridsNorm { dir, ident }),
            Err(_) => Err(InvalidConvertSetArgError::TileSetGridsInvalidArguments(too_many_arguments())),
        }
    } else if str_eq(prefix, "tilesetdir") {
        Ok(ConvertSetArg::TileSetDir(payload))
    } else if str_eq(prefix, "symsetdir") {
        Ok(ConvertSetArg::SymbolSetDir(payload))
    } else {
        Err(InvalidConvertSetArgError::InvalidConvertArgError(InvalidConvertArgError::InvalidPrefix(prefix.to_owned())))
    }
}

// ---------------------------------------------------------------------------
// Conversions
// ---------------------------------------------------------------------------

/// A conversion that cannot be made.
#[derive(Debug, PartialEq, Eq)]
pub enum ConvertSetError {
    FromArg(InvalidConvertSetArgError),
    ToArg(InvalidConvertSetArgError),
    InvalidConversion { from_prefix: String, to_prefix: String },
}

/// The model of a `ConvertSetError`.
pub enum ConvertSetErrorView {
    FromArg(ArgErrorView),
    ToArg(ArgErrorView),
    InvalidConversion { from_prefix: Seq<char>, to_prefix: Seq<char> },
}

impl View for ConvertSetError {
    type V = ConvertSetErrorView;

    open spec fn view(&self) -> ConvertSetErrorView {
        match self {
            ConvertSetError::FromArg(e) => ConvertSetErrorView::FromArg(e@),
            ConvertSetError::ToArg(e) => ConvertSetErrorView::ToArg(e@),
            ConvertSetError::InvalidConversion { from_prefix, to_prefix } => ConvertSetErrorView::InvalidConversion {
                from_prefix: from_prefix@,
                to_prefix: to_prefix@,
            },
        }
    }
}

/// The two representations of a conversion from `from` to `to`, or why it
/// cannot be made: an argument names nothing, or both are of one kind.
pub open spec fn conversion_spec(from: Seq<char>, to: Seq<char>) -> Result<(ArgView, ArgView), ConvertSetErrorView> {
    match identify_spec(from) {
        Err(e) => Err(ConvertSetErrorView::FromArg(e)),
        Ok(a) => match identify_spec(to) {
            Err(e) => Err(ConvertSetErrorView::ToArg(e)),
            Ok(b) => if a.same_kind(b) {
                Err(ConvertSetErrorView::InvalidConversion { from_prefix: a.prefix(), to_prefix: b.prefix() })
            } else {
                Ok((a, b))
            },
        },
    }
}

/// The model of what `identify_conversion` returns.
pub open spec fn conversion_result_view<'f, 't>(
    r: Result<(ConvertSetArg<'f>, ConvertSetArg<'t>), ConvertSetError>,
) -> Result<(ArgView, ArgView), ConvertSetErrorView> {
    match r {
        Ok((a, b)) => Ok((a@, b@)),
        Err(e) => Err(e@),
    }
}

/// Reads the two arguments of a conversion and checks that it can be made:
/// the source and the destination must be of different kinds.
pub fn identify_conversion<'f, 't>(from: &'f str, to: &'t str) -> (r: Result<
    (ConvertSetArg<'f>, ConvertSetArg<'t>),
    ConvertSetError,
>)
    ensures
        conversion_result_view(r) == conversion_spec(from@, to@),
{
    let from_arg = match identify_convert_set_arg(from) {
        Ok(a) => a,
        Err(e) => {
            return Err(ConvertSetError::FromArg(e));
        },
    };
    let to_arg = match identify_convert_set_arg(to) {
        Ok(a) => a,
        Err(e) => {
            return Err(ConvertSetError::ToArg(e));
        },
    };
    if from_arg.same_kind(&to_arg) {
        return Err(
            ConvertSetError::InvalidConversion {
                from_prefix: from_arg.prefix().to_owned(),
                to_prefix: to_arg.prefix().to_owned(),
            },
        );
    }
    Ok((from_arg, to_arg))
}

// ---------------------------------------------------------------------------
// Laws
// ---------------------------------------------------------------------------

impl ArgView {
    /// The payload fields of this argument.
    pub open spec fn fields(self) -> Seq<Seq<char>> {
        match self {
            ArgView::BinFileSet { sd_path, sd_2_path, hd_path, hd_2_path } => seq![
                sd_path,
                sd_2_path,
                hd_path,
                hd_2_path,
            ],
            ArgView::BinFileSetNorm { dir, ident } => norm_fields(dir, ident),
            ArgView::TileSetGrids { sd_path, hd_path } => seq![sd_path, hd_path],
            ArgView::TileSetGridsNorm { dir, ident } => norm_fields(dir, ident),
            ArgView::TileSetDir(dir) => seq![dir],
            ArgView::SymbolSetDir(dir) => seq![dir],
        }
    }

    /// The argument text that names this representation.
    pub open spec fn text(self) -> Seq<char> {
        self.prefix() + seq![':'] + join_colon(self.fields())
    }

    /// The fields can be written in an argument: those that are split at ':'
    /// hold none.
    pub open spec fn well_formed(self) -> bool {
        match self {
            ArgView::TileSetDir(_) => true,
            ArgView::SymbolSetDir(_) => true,
            _ => forall|i: int| 0 <= i < self.fields().len() ==> colon_free(#[trigger] self.fields()[i]),
        }
    }
}

/// The fields of a `*norm` argument: the directory, then the identifier if
/// there is one.
pub open spec fn norm_fields(dir: Seq<char>, ident: Option<Seq<char>>) -> Seq<Seq<char>> {
    match ident {
        Some(i) => seq![dir, i],
        None => seq![dir],
    }
}

proof fn lemma_prefixes()
    ensures
        colon_free("binset"@),
        colon_free("binsetnorm"@),
        colon_free("tilesetgrids"@),
        colon_free("tilesetgridsnorm"@),
        colon_free("tilesetdir"@),
        colon_free("symsetdir"@),
        "binset"@ != "binsetnorm"@,
        "binset"@ != "tilesetgrids"@,
        "binset"@ != "tilesetgridsnorm"@,
        "binset"@ != "tilesetdir"@,
        "binset"@ != "symsetdir"@,
        "binsetnorm"@ != "tilesetgrids"@,
        "binsetnorm"@ != "tilesetgridsnorm"@,
        "binsetnorm"@ != "tilesetdir"@,
        "binsetnorm"@ != "symsetdir"@,
        "tilesetgrids"@ != "tilesetgridsnorm"@,
        "tilesetgrids"@ != "tilesetdir"@,
        "tilesetgrids"@ != "symsetdir"@,
        "tilesetgridsnorm"@ != "tilesetdir"@,
        "tilesetgridsnorm"@ != "symsetdir"@,
        "tilesetdir"@ != "symsetdir"@,
{
    reveal_strlit("binset");
    reveal_strlit("binsetnorm");
    reveal_strlit("tilesetgrids");
    reveal_strlit("tilesetgridsnorm");
    reveal_strlit("tilesetdir");
    reveal_strlit("symsetdir");
    assert("binsetnorm"@[0] != "tilesetdir"@[0]);
}

/// In `prefix:payload` with a prefix free of ':', the first ':' ends the
/// prefix.
proof fn lemma_prefix_payload(prefix: Seq<char>, payload: Seq<char>)
    requires
        colon_free(prefix),
    ensures
        !colon_free(prefix + seq![':'] + payload),
        first_colon(prefix + seq![':'] + payload) == prefix.len(),
        (prefix + seq![':'] + payload).take(prefix.len() as int) == prefix,
        (prefix + seq![':'] + payload).skip(prefix.len() as int + 1) == payload,
{
    let s = prefix + seq![':'] + payload;
    let k = prefix.len() as int;
    assert(s[k] == ':');
    assert(s.take(k) =~= prefix);
    assert(s.skip(k + 1) =~= payload);
    lemma_first_colon(s, k);
}

/// Every well-formed representation, written as an argument, is read back as
/// itself.
pub proof fn lemma_identify_round_trip(a: ArgView)
    requires
        a.well_formed(),
    ensures
        identify_spec(a.text()) == Ok::<ArgView, ArgErrorView>(a),
{
    lemma_prefixes();
    lemma_prefix_payload(a.prefix(), join_colon(a.fields()));
    let f = a.fields();
    match a {
        ArgView::TileSetDir(_) => {},
        ArgView::SymbolSetDir(_) => {},
        _ => {
            lemma_split_join(f);
        },
    }
}

/// An arity-checked argument with the wrong number of fields is refused with
/// the error of its kind: "too few arguments" under the count, "too many
/// arguments" over it.
pub proof fn lemma_identify_arity(prefix: Seq<char>, fs: Seq<Seq<char>>)
    requires
        fs.len() >= 1,
        forall|i: int| 0 <= i < fs.len() ==> colon_free(#[trigger] fs[i]),
    ensures
        ({
            let r = identify_spec(prefix + seq![':'] + join_colon(fs));
            &&& prefix == "binset"@ && fs.len() < 4 ==> r == Err::<ArgView, _>(
                ArgErrorView::BinSetInvalidArguments(too_few()),
            )
            &&& prefix == "binset"@ && fs.len() > 4 ==> r == Err::<ArgView, _>(
                ArgErrorView::BinSetInvalidArguments(too_many()),
            )
            &&& prefix == "binsetnorm"@ && fs.len() > 2 ==> r == Err::<ArgView, _>(
                ArgErrorView::BinSetInvalidArguments(too_many()),
            )
            &&& prefix == "tilesetgrids"@ && fs.len() < 2 ==> r == Err::<ArgView, _>(
                ArgErrorView::TileSetGridsInvalidArguments(too_few()),
            )
            &&& prefix == "tilesetgrids"@ && fs.len() > 2 ==> r == Err::<ArgView, _>(
                ArgErrorView::TileSetGridsInvalidArguments(too_many()),
            )
            &&& prefix == "tilesetgridsnorm"@ && fs.len() > 2 ==> r == Err::<ArgView, _>(
                ArgErrorView::TileSetGridsInvalidArguments(too_many()),
            )
        }),
{
    lemma_prefixes();
    if prefix == "binset"@ || prefix == "binsetnorm"@ || prefix == "tilesetgrids"@ || prefix
        == "tilesetgridsnorm"@ {
        lemma_prefix_payload(prefix, join_colon(fs));
        lemma_split_join(fs);
    }
}

/// A conversion between two arguments of one kind is always refused, naming
/// both prefixes.
pub proof fn lemma_same_kind_refused(from: Seq<char>, to: Seq<char>)
    requires
        identify_spec(from) is Ok,
        identify_spec(to) is Ok,
        identify_spec(from)->Ok_0.same_kind(identify_spec(to)->Ok_0),
    ensures
        conversion_spec(from, to) == Err::<(ArgView, ArgView), _>(
            ConvertSetErrorView::InvalidConversion {
                from_prefix: identify_spec(from)->Ok_0.prefix(),
                to_prefix: identify_spec(to)->Ok_0.prefix(),
            },
        ),
{
}

// ---------------------------------------------------------------------------
// Messages
// ---------------------------------------------------------------------------

impl ArgErrorView {
    /// The text that tells a user what is wrong with an argument.
    pub open spec fn message(self) -> Seq<char> {
        match self {
            ArgErrorView::InvalidPrefix(p) => "invalid prefix: "@ + p,
            ArgErrorView::NoPrefix => "no prefix"@,
            ArgErrorView::BinSetInvalidArguments(m) => m,
            ArgErrorView::TileSetGridsInvalidArguments(m) => m,
        }
    }
}

impl ConvertSetErrorView {
    /// The text that tells a user why a conversion cannot be made.
    pub open spec fn message(self) -> Seq<char> {
        match self {
            ConvertSetErrorView::FromArg(e) => "invalid `from` argument: "@ + e.message(),
            ConvertSetErrorView::ToArg(e) => "invalid `to` argument: "@ + e.message(),
            ConvertSetErrorView::InvalidConversion { from_prefix, to_prefix } => "invalid conversion from "@
                + from_prefix + " to "@ + to_prefix,
        }
    }
}

impl InvalidConvertSetArgError {
    /// The text that tells a user what is wrong with the argument.
    pub fn message(&self) -> (r: String)
        ensures
            r@ == self@.message(),
    {
        match self {
            InvalidConvertSetArgError::InvalidConvertArgError(
                InvalidConvertArgError::InvalidPrefix(p),
            ) => {
                let mut r = String::from_str("invalid prefix: ");
                r.append(p.as_str());
                r
            },
            InvalidConvertSetArgError::InvalidConvertArgError(InvalidConvertArgError::NoPrefix) => {
                String::from_str("no prefix")
            },
            InvalidConvertSetArgError::BinSetInvalidArguments(m) => String::from_str(m),
            InvalidConvertSetArgError::TileSetGridsInvalidArguments(m) => String::from_str(m),
        }
    }
}

impl ConvertSetError {
    /// The text that tells a user why the conversion cannot be made.
    pub fn message(&self) -> (r: String)
        ensures
            r@ == self@.message(),
    {
        match self {
            ConvertSetError::FromArg(e) => {
                let mut r = String::from_str("invalid `from` argument: ");
                let m = e.message();
                r.append(m.as_str());
                r
            },
            ConvertSetError::ToArg(e) => {
                let mut r = String::from_str("invalid `to` argument: ");
                let m = e.message();
                r.append(m.as_str());
                r
            },
            ConvertSetError::InvalidConversion { from_prefix, to_prefix } => {
                let mut r = String::from_str("invalid conversion from ");
                r.append(from_prefix.as_str());
                r.append(" to ");
                r.append(to_prefix.as_str());
                r
            },
        }
    }
}

} // verus!
