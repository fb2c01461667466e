//! Windows paths in their extended-length form.
//!
//! Win32 calls limit ordinary paths in length. Paths that begin with `\\?\` are not limited, but
//! they are not normalized either, so a path is made absolute and freed of its dot segments before
//! it gets that prefix.

use vstd::prelude::*;

use crate::secret_file::fault::SecretFault;

verus! {

/// The kinds of prefix that a Windows path may begin with.
#[derive(Clone, Copy, Debug, PartialEq, Eq, Structural)]
pub enum PrefixKind {
    /// `C:`
    Disk,
    /// `\\server\share`
    Unc,
    /// `\\?\UNC\server\share`
    VerbatimUnc,
    /// `\\?\C:`
    VerbatimDisk,
    /// `\\?\name`
    Verbatim,
    /// `\\.\name`
    DeviceNamespace,
}

/// The prefix of a Windows path, in UTF-16.
#[derive(Clone, Debug)]
pub struct PathPrefix {
    pub kind: PrefixKind,
    pub text: Vec<u16>,
}

/// A component behind the prefix and the root of a path.
#[derive(Clone, Debug)]
pub enum PathPart {
    /// `.`
    Current,
    /// `..`
    Parent,
    /// A name, in UTF-16.
    Name(Vec<u16>),
}

/// A Windows path by its components.
#[derive(Clone, Debug)]
pub struct WindowsPath {
    pub prefix: Option<PathPrefix>,
    pub has_root: bool,
    pub parts: Vec<PathPart>,
}

/// A component of a path.
pub enum PartView {
    Current,
    Parent,
    Name(Seq<u16>),
}

impl View for PathPart {
    type V = PartView;

    open spec fn view(&self) -> PartView {
        match self {
            PathPart::Current => PartView::Current,
            PathPart::Parent => PartView::Parent,
            PathPart::Name(name) => PartView::Name(name@),
        }
    }
}

/// A path: the kind and text of its prefix, its root, and its components.
pub struct PathView {
    pub prefix: Option<(PrefixKind, Seq<u16>)>,
    pub has_root: bool,
    pub parts: Seq<PartView>,
}

impl View for WindowsPath {
    type V = PathView;

    open spec fn view(&self) -> PathView {
        PathView {
            prefix: match self.prefix {
                Some(prefix) => Some((prefix.kind, prefix.text@)),
                None => None,
            },
            has_root: self.has_root,
            parts: self.parts@.map_values(|part: PathPart| part@),
        }
    }
}

pub open spec fn backslash() -> u16 {
    92
}

/// `\\?\`
pub open spec fn verbatim_mark() -> Seq<u16> {
    seq![92u16, 92, 63, 92]
}

/// `\\?\UNC\`
pub open spec fn verbatim_unc_mark() -> Seq<u16> {
    seq![92u16, 92, 63, 92, 85, 78, 67, 92]
}

/// Whether a path is absolute: it has a prefix, and a root unless the prefix implies one.
pub open spec fn fully_qualified(path: PathView) -> bool {
    match path.prefix {
        Some((kind, _)) => kind != PrefixKind::Disk || path.has_root,
        None => false,
    }
}

/// Whether a prefix names a drive or a share.
pub open spec fn names_storage(prefix: Option<(PrefixKind, Seq<u16>)>) -> bool {
    match prefix {
        Some((kind, _)) => kind != PrefixKind::Verbatim && kind != PrefixKind::DeviceNamespace,
        None => true,
    }
}

/// The names that the first `n` components lead to, one below the other. A `..` takes back the
/// name before it and must not climb above the root.
pub open spec fn resolved(parts: Seq<PartView>, n: nat) -> Result<Seq<Seq<u16>>, SecretFault>
    decreases n,
{
    if n == 0 {
        Ok(Seq::empty())
    } else {
        match resolved(parts, (n - 1) as nat) {
            Err(fault) => Err(fault),
            Ok(names) => match parts[n - 1] {
                PartView::Current => Ok(names),
                PartView::Parent => if names.len() == 0 {
                    Err(SecretFault::EscapesRoot)
                } else {
                    Ok(names.drop_last())
                },
                PartView::Name(name) => if name == seq![46u16] || name == seq![46u16, 46] {
                    Err(SecretFault::DotSegment)
                } else {
                    Ok(names.push(name))
                },
            },
        }
    }
}

/// The first `n` names, each behind a backslash but the first one behind a root.
pub open spec fn joined_names(names: Seq<Seq<u16>>, has_root: bool, n: nat) -> Seq<u16>
    decreases n,
{
    if n == 0 {
        Seq::empty()
    } else if n == 1 && has_root {
        names[0]
    } else {
        joined_names(names, has_root, (n - 1) as nat).push(backslash()) + names[n - 1]
    }
}

/// The text of an absolute path.
pub open spec fn path_text(prefix: Seq<u16>, has_root: bool, names: Seq<Seq<u16>>) -> Seq<u16> {
    if has_root {
        prefix.push(backslash()) + joined_names(names, has_root, names.len())
    } else {
        prefix + joined_names(names, has_root, names.len())
    }
}

/// The extended-length form of an absolute path's text.
pub open spec fn extended(text: Seq<u16>) -> Seq<u16> {
    if verbatim_mark().is_prefix_of(text) {
        text
    } else if seq![92u16, 92].is_prefix_of(text) {
        verbatim_unc_mark() + text.subrange(2, text.len() as int)
    } else {
        verbatim_mark() + text
    }
}

/// The extended-length form of an absolute path, with a closing NUL.
pub open spec fn extended_absolute(path: PathView) -> Result<Seq<u16>, SecretFault> {
    if !names_storage(path.prefix) {
        Err(SecretFault::DeviceNamespace)
    } else {
        match resolved(path.parts, path.parts.len()) {
            Err(fault) => Err(fault),
            Ok(names) => {
                let text = path_text(path.prefix->Some_0.1, path.has_root, names);
                if text.contains(0) {
                    Err(SecretFault::InteriorNul)
                } else {
                    Ok(extended(text).push(0))
                }
            },
        }
    }
}

/// The extended-length form of a path, which may be relative to a current directory.
pub open spec fn extended_form(path: PathView, current: PathView) -> Result<Seq<u16>, SecretFault> {
    if path.prefix is None && !path.has_root && path.parts.len() == 0 {
        Err(SecretFault::EmptyPath)
    } else if !names_storage(path.prefix) {
        Err(SecretFault::DeviceNamespace)
    } else if fully_qualified(path) {
        extended_absolute(path)
    } else if path.prefix is Some || path.has_root {
        Err(SecretFault::PartiallyQualified)
    } else if !fully_qualified(current) {
        Err(SecretFault::UnqualifiedCurrentDirectory)
    } else {
        extended_absolute(
            PathView {
                prefix: current.prefix,
                has_root: current.has_root,
                parts: current.parts + path.parts,
            },
        )
    }
}

/// An extended-length path begins with `\\?\`, and its only NUL is its last unit.
pub proof fn law_extended_paths_are_verbatim(path: PathView, current: PathView)
    requires
        extended_form(path, current) is Ok,
    ensures
        ({
            let out = extended_form(path, current)->Ok_0;
            &&& verbatim_mark().is_prefix_of(out)
            &&& out.last() == 0
            &&& forall|i: int| 0 <= i < out.len() - 1 ==> out[i] != 0
        }),
{
    let whole = if fully_qualified(path) {
        path
    } else {
        PathView {
            prefix: current.prefix,
            has_root: current.has_root,
            parts: current.parts + path.parts,
        }
    };
    let names = resolved(whole.parts, whole.parts.len())->Ok_0;
    let text = path_text(whole.prefix->Some_0.1, whole.has_root, names);
    let out = extended(text).push(0);
    assert(extended_form(path, current) == Ok::<Seq<u16>, SecretFault>(out));
    assert forall|i: int| 0 <= i < text.len() implies text[i] != 0 by {
        assert(text.contains(text[i]));
    }
    let mark = verbatim_mark();
    assert forall|i: int| 0 <= i < 4 implies out[i] == mark[i] by {
        if mark.is_prefix_of(text) {
            assert(text.subrange(0, 4)[i] == text[i]);
        }
    }
    assert(out.subrange(0, 4) =~= mark);
}

/// Whether some components resolve to names that are no dot segments.
pub open spec fn plain_names(names: Seq<Seq<u16>>) -> bool {
    forall|i: int|
        0 <= i < names.len() ==> #[trigger] names[i] != seq![46u16] && names[i] != seq![46u16, 46]
}

/// No dot segment survives in the names that a path resolves to.
pub proof fn law_resolved_names_are_plain(parts: Seq<PartView>, n: nat)
    requires
        n <= parts.len(),
        resolved(parts, n) is Ok,
    ensures
        plain_names(resolved(parts, n)->Ok_0),
    decreases n,
{
    if n > 0 {
        law_resolved_names_are_plain(parts, (n - 1) as nat);
    }
}

/// Components that are all plain names resolve to themselves.
pub proof fn law_plain_names_stay(parts: Seq<PartView>, names: Seq<Seq<u16>>, n: nat)
    requires
        n <= parts.len(),
        names.len() == parts.len(),
        forall|i: int| 0 <= i < parts.len() ==> #[trigger] parts[i] == PartView::Name(names[i]),
        plain_names(names),
    ensures
        resolved(parts, n) == Ok::<Seq<Seq<u16>>, SecretFault>(names.take(n as int)),
    decreases n,
{
    if n > 0 {
        law_plain_names_stay(parts, names, (n - 1) as nat);
        assert(parts[n - 1] == PartView::Name(names[n - 1]));
        assert(names.take(n as int) =~= names.take(n - 1).push(names[n - 1]));
    } else {
        assert(names.take(0) =~= Seq::empty());
    }
}

/// Whether units are one dot or two.
fn is_dots(name: &Vec<u16>) -> (r: bool)
    ensures
        r == (name@ == seq![46u16] || name@ == seq![46u16, 46]),
{
    let r: bool = (name.len() == 1 && name[0] == 46) || (name.len() == 2 && name[0] == 46
        && name[1] == 46);
    proof {
        if r {
            assert(name@ =~= seq![46u16] || name@ =~= seq![46u16, 46]);
        }
    }
    r
}

/// The indices of the parts that a path's names resolve to.
pub open spec fn picked(parts: Seq<PartView>, kept: Seq<usize>) -> Seq<Seq<u16>> {
    kept.map_values(|k: usize| parts[k as int]->Name_0)
}

/// Resolves components, keeping the indices of the names that stay.
fn resolve(parts: &Vec<&PathPart>) -> (r: Result<Vec<usize>, SecretFault>)
    ensures
        ({
            let views = part_views(parts@);
            match r {
                Ok(kept) => {
                    &&& resolved(views, views.len()) == Ok::<Seq<Seq<u16>>, SecretFault>(
                        picked(views, kept@),
                    )
                    &&& forall|i: int|
                        0 <= i < kept@.len() ==> #[trigger] kept@[i] < parts@.len()
                            && views[kept@[i] as int] is Name
                },
                Err(fault) => resolved(views, views.len()) == Err::<Seq<Seq<u16>>, SecretFault>(
                    fault,
                ),
            }
        }),
{
    let ghost views = part_views(parts@);
    let mut kept: Vec<usize> = Vec::new();
    assert(picked(views, kept@) =~= Seq::empty());
    let mut i: usize = 0;
    while i < parts.len()
        invariant
            i <= parts.len(),
            views == part_views(parts@),
            resolved(views, i as nat) == Ok::<Seq<Seq<u16>>, SecretFault>(picked(views, kept@)),
            forall|j: int|
                0 <= j < kept@.len() ==> #[trigger] kept@[j] < parts@.len()
                    && views[kept@[j] as int] is Name,
        decreases parts.len() - i,
    {
        let ghost before = kept@;
        assert(views[i as int] == parts@[i as int]@);
        match parts[i] {
            PathPart::Current => {},
            PathPart::Parent => {
                if kept.len() == 0 {
                    proof {
                        lemma_fault_stays(views, (i + 1) as nat, views.len());
                    }
                    return Err(SecretFault::EscapesRoot);
                }
                kept.pop();
                assert(picked(views, kept@) =~= picked(views, before).drop_last());
            },
            PathPart::Name(name) => {
                if is_dots(name) {
                    proof {
                        lemma_fault_stays(views, (i + 1) as nat, views.len());
                    }
                    return Err(SecretFault::DotSegment);
                }
                kept.push(i);
                assert(picked(views, kept@) =~= picked(views, before).push(name@));
            },
        }
        i = i + 1;
    }
    Ok(kept)
}

/// A fault in the first components is the fault of the whole.
proof fn lemma_fault_stays(parts: Seq<PartView>, k: nat, n: nat)
    requires
        k <= n,
        resolved(parts, k) is Err,
    ensures
        resolved(parts, n) == resolved(parts, k),
    decreases n,
{
    if k < n {
        lemma_fault_stays(parts, k, (n - 1) as nat);
    }
}

fn push_units(out: &mut Vec<u16>, units: &Vec<u16>, from: usize)
    requires
        from <= units.len(),
    ensures
        final(out)@ == old(out)@ + units@.subrange(from as int, units@.len() as int),
{
    let ghost before = out@;
    let mut i: usize = from;
    while i < units.len()
        invariant
            from <= i <= units.len(),
            out@ == before + units@.subrange(from as int, i as int),
        decreases units.len() - i,
    {
        out.push(units[i]);
        i = i + 1;
        assert(out@ =~= before + units@.subrange(from as int, i as int));
    }
}

/// Puts an absolute path into its extended-length form.
fn extend_absolute(prefix: &PathPrefix, has_root: bool, parts: &Vec<&PathPart>) -> (r: Result<
    Vec<u16>,
    SecretFault,
>)
    ensures
        ({
            let whole = PathView {
                prefix: Some((prefix.kind, prefix.text@)),
                has_root,
                parts: part_views(parts@),
            };
            match r {
                Ok(out) => extended_absolute(whole) == Ok::<Seq<u16>, SecretFault>(out@),
                Err(fault) => extended_absolute(whole) == Err::<Seq<u16>, SecretFault>(fault),
            }
        }),
{
    let ghost views = part_views(parts@);
    if prefix.kind == PrefixKind::Verbatim || prefix.kind == PrefixKind::DeviceNamespace {
        return Err(SecretFault::DeviceNamespace);
    }
    let kept: Vec<usize> = match resolve(parts) {
        Ok(kept) => kept,
        Err(fault) => {
            return Err(fault);
        },
    };
    let ghost names = picked(views, kept@);
    let mut text: Vec<u16> = Vec::new();
    push_units(&mut text, &prefix.text, 0);
    assert(text@ =~= prefix.text@);
    if has_root {
        text.push(92);
    }
    let ghost head = text@;
    let mut i: usize = 0;
    assert(text@ =~= head + joined_names(names, has_root, 0));
    while i < kept.len()
        invariant
            i <= kept.len(),
            views == part_views(parts@),
            names == picked(views, kept@),
            names.len() == kept@.len(),
            forall|j: int|
                0 <= j < kept@.len() ==> #[trigger] kept@[j] < parts@.len()
                    && views[kept@[j] as int] is Name,
            text@ == head + joined_names(names, has_root, i as nat),
        decreases kept.len() - i,
    {
        let ghost before = text@;
        if i > 0 || !has_root {
            text.push(92);
        }
        assert(kept@[i as int] < parts@.len());
        assert(views[kept@[i as int] as int] == parts@[kept@[i as int] as int]@);
        if let PathPart::Name(name) = parts[kept[i]] {
            push_units(&mut text, name, 0);
            assert(name@.subrange(0, name@.len() as int) =~= name@);
            assert(names[i as int] == name@);
        }
        i = i + 1;
        assert(text@ =~= head + joined_names(names, has_root, i as nat));
    }
    assert(text@ =~= path_text(prefix.text@, has_root, names));
    if has_nul(&text) {
        return Err(SecretFault::InteriorNul);
    }
    Ok(extend_text(&text))
}

/// Whether units hold a NUL.
fn has_nul(text: &Vec<u16>) -> (r: bool)
    ensures
        r == text@.contains(0),
{
    let mut k: usize = 0;
    while k < text.len()
        invariant
            k <= text.len(),
            forall|j: int| 0 <= j < k ==> text@[j] != 0,
        decreases text.len() - k,
    {
        if text[k] == 0 {
            assert(text@[k as int] == 0);
            return true;
        }
        k = k + 1;
    }
    false
}

/// Gives an absolute path's text its extended-length prefix and a closing NUL.
fn extend_text(text: &Vec<u16>) -> (out: Vec<u16>)
    ensures
        out@ == extended(text@).push(0),
{
    let shares: bool = text.len() >= 2 && text[0] == 92 && text[1] == 92;
    let verbatim: bool = shares && text.len() >= 4 && text[2] == 63 && text[3] == 92;
    proof {
        if verbatim {
            assert(text@.subrange(0, 4) =~= verbatim_mark());
        } else if verbatim_mark().is_prefix_of(text@) {
            assert(text@.subrange(0, 4)[2] == text@[2] && text@.subrange(0, 4)[3] == text@[3]);
            assert(text@.subrange(0, 4)[0] == text@[0] && text@.subrange(0, 4)[1] == text@[1]);
        }
        if shares {
            assert(text@.subrange(0, 2) =~= seq![92u16, 92]);
        } else if seq![92u16, 92].is_prefix_of(text@) {
            assert(text@.subrange(0, 2)[0] == text@[0] && text@.subrange(0, 2)[1] == text@[1]);
        }
    }
    let mut out: Vec<u16> = Vec::new();
    if verbatim {
        push_units(&mut out, text, 0);
        assert(out@ =~= text@);
    } else if shares {
        out.push(92);
        out.push(92);
        out.push(63);
        out.push(92);
        out.push(85);
        out.push(78);
        out.push(67);
        out.push(92);
        assert(out@ =~= verbatim_unc_mark());
        push_units(&mut out, text, 2);
    } else {
        out.push(92);
        out.push(92);
        out.push(63);
        out.push(92);
        assert(out@ =~= verbatim_mark());
        push_units(&mut out, text, 0);
        assert(text@.subrange(0, text@.len() as int) =~= text@);
    }
    assert(out@ =~= extended(text@));
    out.push(0);
    out
}

/// Converts a path to its absolute extended-length form, closed by a NUL. An ordinarily relative
/// path is taken from the current directory.
pub fn windows_extended_path(path: &WindowsPath, current: &WindowsPath) -> (r: Result<
    Vec<u16>,
    SecretFault,
>)
    ensures
        match r {
            Ok(out) => extended_form(path@, current@) == Ok::<Seq<u16>, SecretFault>(out@),
            Err(fault) => extended_form(path@, current@) == Err::<Seq<u16>, SecretFault>(fault),
        },
{
    let mut parts: Vec<&PathPart> = Vec::new();
    match &path.prefix {
        Some(prefix) => {
            if prefix.kind == PrefixKind::Verbatim || prefix.kind == PrefixKind::DeviceNamespace {
                return Err(SecretFault::DeviceNamespace);
            }
            if prefix.kind == PrefixKind::Disk && !path.has_root {
                return Err(SecretFault::PartiallyQualified);
            }
            push_parts(&mut parts, &path.parts);
            assert(part_views(parts@) =~= path@.parts);
            extend_absolute(prefix, path.has_root, &parts)
        },
        None => {
            if path.has_root {
                return Err(SecretFault::PartiallyQualified);
            }
            if path.parts.len() == 0 {
                return Err(SecretFault::EmptyPath);
            }
            match &current.prefix {
                Some(prefix) => {
                    if prefix.kind == PrefixKind::Disk && !current.has_root {
                        return Err(SecretFault::UnqualifiedCurrentDirectory);
                    }
                    push_parts(&mut parts, &current.parts);
                    push_parts(&mut parts, &path.parts);
                    assert(part_views(parts@) =~= current@.parts
                        + path@.parts);
                    extend_absolute(prefix, current.has_root, &parts)
                },
                None => Err(SecretFault::UnqualifiedCurrentDirectory),
            }
        },
    }
}

/// The components behind references.
pub open spec fn part_views(parts: Seq<&PathPart>) -> Seq<PartView> {
    parts.map_values(|part: &PathPart| part@)
}

fn push_parts<'a>(out: &mut Vec<&'a PathPart>, parts: &'a Vec<PathPart>)
    ensures
        part_views(final(out)@) == part_views(old(out)@) + parts@.map_values(
            |part: PathPart| part@,
        ),
{
    let ghost before = part_views(out@);
    let ghost added = parts@.map_values(|part: PathPart| part@);
    let mut i: usize = 0;
    assert(part_views(out@) =~= before + added.take(0));
    while i < parts.len()
        invariant
            i <= parts.len(),
            added == parts@.map_values(|part: PathPart| part@),
            part_views(out@) == before + added.take(i as int),
        decreases parts.len() - i,
    {
        let ghost held = out@;
        out.push(&parts[i]);
        i = i + 1;
        assert(part_views(out@) =~= part_views(held).push(added[i - 1]));
        assert(part_views(out@) =~= before + added.take(i as int));
    }
    assert(added.take(added.len() as int) =~= added);
}

/// A name and a step to the parent right after it cancel, a step to the same directory changes
/// nothing, and a step above the root is refused.
pub proof fn law_steps_resolve(parts: Seq<PartView>, n: nat)
    requires
        n < parts.len(),
        resolved(parts, n) is Ok,
    ensures
        parts[n as int] == PartView::Current ==> resolved(parts, n + 1) == resolved(parts, n),
        parts[n as int] == PartView::Parent && resolved(parts, n)->Ok_0.len() == 0 ==> resolved(
            parts,
            n + 1,
        ) == Err::<Seq<Seq<u16>>, SecretFault>(SecretFault::EscapesRoot),
        n + 1 < parts.len() && parts[n as int] is Name && plain_names(
            seq![parts[n as int]->Name_0],
        ) && parts[n as int + 1] == PartView::Parent ==> resolved(parts, n + 2) == resolved(parts, n),
{
    if n + 1 < parts.len() && parts[n as int] is Name && plain_names(
        seq![parts[n as int]->Name_0],
    ) && parts[n as int + 1] == PartView::Parent {
        let names = resolved(parts, n)->Ok_0;
        let name = parts[n as int]->Name_0;
        assert(seq![name][0] == name);
        assert(resolved(parts, n + 1) == Ok::<Seq<Seq<u16>>, SecretFault>(names.push(name)));
        assert(names.push(name).drop_last() =~= names);
    }
}

/// One name more is appended after a separator, which is left out only between a root and its first
/// name.
pub proof fn law_names_are_appended(
    prefix: Seq<u16>,
    has_root: bool,
    names: Seq<Seq<u16>>,
    name: Seq<u16>,
)
    ensures
        path_text(prefix, has_root, names.push(name)) == path_text(prefix, has_root, names) + (
        if has_root && names.len() == 0 {
            name
        } else {
            seq![92u16] + name
        }),
        path_text(prefix, has_root, Seq::empty()) == if has_root {
            prefix.push(92)
        } else {
            prefix
        },
{
    let more = names.push(name);
    let n = names.len();
    lemma_joined_prefix(more, names, has_root, n);
    assert(path_text(prefix, has_root, Seq::empty()) =~= if has_root {
        prefix.push(92)
    } else {
        prefix
    });
    if has_root && n == 0 {
        assert(path_text(prefix, has_root, more) =~= path_text(prefix, has_root, names) + name);
    } else {
        assert(path_text(prefix, has_root, more) =~= path_text(prefix, has_root, names) + (
        seq![92u16] + name));
    }
}

proof fn lemma_joined_prefix(
    a: Seq<Seq<u16>>,
    b: Seq<Seq<u16>>,
    has_root: bool,
    n: nat,
)
    requires
        n <= a.len(),
        n <= b.len(),
        forall|i: int| 0 <= i < n ==> a[i] == b[i],
    ensures
        joined_names(a, has_root, n) == joined_names(b, has_root, n),
    decreases n,
{
    if n > 0 {
        lemma_joined_prefix(a, b, has_root, (n - 1) as nat);
    }
}

/// The extended form keeps the text: it is the text itself, or the text behind the verbatim mark, or
/// the text of a share without its two separators behind the verbatim mark of shares.
pub proof fn law_extended_forms_keep_the_text(text: Seq<u16>)
    ensures
        ({
            let out = extended(text);
            let is_share = text.len() >= 2 && text[0] == 92 && text[1] == 92;
            let is_verbatim = is_share && text.len() >= 4 && text[2] == 63 && text[3] == 92;
            &&& is_verbatim ==> out == text
            &&& is_share && !is_verbatim ==> out.len() == text.len() + 6 && out.skip(8)
                == text.skip(2) && out.take(8) == seq![92u16, 92, 63, 92, 85, 78, 67, 92]
            &&& !is_share ==> out.len() == text.len() + 4 && out.skip(4) == text && out.take(4)
                == seq![92u16, 92, 63, 92]
        }),
{
    let out = extended(text);
    let mark = verbatim_mark();
    let share = seq![92u16, 92];
    let is_share = text.len() >= 2 && text[0] == 92 && text[1] == 92;
    let is_verbatim = is_share && text.len() >= 4 && text[2] == 63 && text[3] == 92;
    assert(is_share <==> share.is_prefix_of(text)) by {
        if is_share {
            assert(text.take(2) =~= share);
        }
        if share.is_prefix_of(text) {
            assert(text.take(2)[0] == share[0] && text.take(2)[1] == share[1]);
        }
    }
    assert(is_verbatim <==> mark.is_prefix_of(text)) by {
        if is_verbatim {
            assert(text.take(4) =~= mark);
        }
        if mark.is_prefix_of(text) {
            let head = text.take(4);
            assert(head[0] == mark[0] && head[1] == mark[1] && head[2] == mark[2] && head[3]
                == mark[3]);
        }
    }
    if is_share && !is_verbatim {
        assert(out.skip(8) =~= text.skip(2));
        assert(out.take(8) =~= verbatim_unc_mark());
    } else if !is_share {
        assert(out.skip(4) =~= text);
        assert(out.take(4) =~= mark);
    }
}

/// A relative path means what it means below the current directory: its form is that of the path with
/// the parts of both.
pub proof fn law_relative_paths_start_at_the_current_directory(
    path: PathView,
    current: PathView,
    elsewhere: PathView,
)
    requires
        path.prefix is None,
        !path.has_root,
        path.parts.len() > 0,
        fully_qualified(current),
    ensures
        extended_form(path, current) == extended_form(
            PathView {
                prefix: current.prefix,
                has_root: current.has_root,
                parts: current.parts + path.parts,
            },
            elsewhere,
        ),
{
}

/// A fully qualified path does not depend on the current directory. A path is refused that is empty,
/// names a device, or has a root or a prefix without being fully qualified.
pub proof fn law_refused_paths(path: PathView, current: PathView, other: PathView)
    ensures
        fully_qualified(path) ==> extended_form(path, current) == extended_form(path, other),
        path.prefix is None && !path.has_root && path.parts.len() == 0 ==> extended_form(
            path,
            current,
        ) == Err::<Seq<u16>, SecretFault>(SecretFault::EmptyPath),
        path.prefix matches Some((kind, _)) && (kind is Verbatim || kind is DeviceNamespace)
            ==> extended_form(path, current) == Err::<Seq<u16>, SecretFault>(
            SecretFault::DeviceNamespace,
        ),
        path.prefix is None && path.has_root ==> extended_form(path, current) == Err::<
            Seq<u16>,
            SecretFault,
        >(SecretFault::PartiallyQualified),
        path.prefix matches Some((kind, _)) && kind is Disk && !path.has_root ==> extended_form(
            path,
            current,
        ) == Err::<Seq<u16>, SecretFault>(SecretFault::PartiallyQualified),
        path.prefix is None && !path.has_root && path.parts.len() > 0 && !fully_qualified(current)
            ==> extended_form(path, current) == Err::<Seq<u16>, SecretFault>(
            SecretFault::UnqualifiedCurrentDirectory,
        ),
{
}

} // verus!
