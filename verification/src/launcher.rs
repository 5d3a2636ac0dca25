//! The launcher's presentation input: icon lookup, the line-per-entry
//! text handed to a front-end, and the plan for executing a chosen entry.

use vstd::prelude::*;
use crate::config::Args;
use crate::config::CfgV;
use crate::config::RaffiConfig;
use crate::text::chars_to_string;
use crate::text::str_chars;

verus! {

/// What can go wrong inside the launcher core.
#[derive(Debug, Clone, Copy, PartialEq, Eq, Structural)]
pub enum LauncherError {
    /// No icon map could be obtained.
    IconMapUnavailable,
    /// The entry names no program.
    BinaryMissing,
}

/// An icon name to path table; later additions replace earlier ones.
pub struct IconMap {
    entries: Vec<(String, String)>,
}

/// The first path recorded for a name.
pub open spec fn icon_lookup(v: Seq<(Seq<char>, Seq<char>)>, name: Seq<char>) -> Option<
    Seq<char>,
>
    decreases v.len(),
{
    if v.len() == 0 {
        None
    } else if v[0].0 == name {
        Some(v[0].1)
    } else {
        icon_lookup(v.drop_first(), name)
    }
}

/// The table after recording a path for a name: an earlier record for
/// the name is replaced, a new name is appended.
pub open spec fn icon_put_spec(
    v: Seq<(Seq<char>, Seq<char>)>,
    name: Seq<char>,
    path: Seq<char>,
) -> Seq<(Seq<char>, Seq<char>)>
    decreases v.len(),
{
    if v.len() == 0 {
        seq![(name, path)]
    } else if v[0].0 == name {
        seq![(name, path)] + v.drop_first()
    } else {
        seq![v[0]] + icon_put_spec(v.drop_first(), name, path)
    }
}

impl View for IconMap {
    type V = Seq<(Seq<char>, Seq<char>)>;

    closed spec fn view(&self) -> Seq<(Seq<char>, Seq<char>)> {
        self.entries.deep_view()
    }
}

impl IconMap {
    /// An empty table.
    pub fn new() -> (r: IconMap)
        ensures
            r@ == Seq::<(Seq<char>, Seq<char>)>::empty(),
    {
        let r = IconMap { entries: Vec::new() };
        proof {
            assert(r@ =~= Seq::<(Seq<char>, Seq<char>)>::empty());
        }
        r
    }

    /// Build a table from name and path pairs, in order.
    pub fn from_pairs(pairs: Vec<(String, String)>) -> (r: IconMap)
        ensures
            r@ == pairs.deep_view(),
    {
        IconMap { entries: pairs }
    }

    /// The path recorded for a name.
    pub fn get(&self, name: &[char]) -> (r: Option<String>)
        ensures
            match r {
                Some(p) => icon_lookup(self@, name@) == Some(p@),
                None => icon_lookup(self@, name@) is None,
            },
    {
        proof {
            assert(self@.subrange(0, self@.len() as int) =~= self@);
        }
        let mut i: usize = 0;
        while i < self.entries.len()
            invariant
                i <= self.entries@.len(),
                icon_lookup(self@, name@) == icon_lookup(
                    self@.subrange(i as int, self@.len() as int),
                    name@,
                ),
            decreases self.entries@.len() - i,
        {
            proof {
                let tail = self@.subrange(i as int, self@.len() as int);
                assert(tail[0] == self@[i as int]);
                assert(self@[i as int] == (self.entries@[i as int].0@, self.entries@[i as int].1@));
                assert(tail.drop_first() =~= self@.subrange(i + 1, self@.len() as int));
            }
            let nm = str_chars(self.entries[i].0.as_str());
            if crate::text::eq_chars(nm.as_slice(), name) {
                return Some(self.entries[i].1.clone());
            }
            i += 1;
        }
        proof {
            assert(self@.subrange(self@.len() as int, self@.len() as int).len() == 0);
        }
        None
    }

    /// Record a path for a name, replacing an earlier record.
    #[verifier::loop_isolation(false)]
    pub fn put(&mut self, name: String, path: String)
        ensures
            final(self)@ == icon_put_spec(old(self)@, name@, path@),
    {
        let ghost orig = old(self)@;
        let nc = str_chars(name.as_str());
        let mut i: usize = 0;
        while i < self.entries.len()
            invariant
                i <= self.entries@.len(),
                self@ == orig,
                nc@ == name@,
                forall|j: int| 0 <= j < i ==> orig[j].0 != name@,
            decreases self.entries@.len() - i,
        {
            proof {
                assert(orig[i as int] == (self.entries@[i as int].0@, self.entries@[i as int].1@));
            }
            let cur = str_chars(self.entries[i].0.as_str());
            if crate::text::eq_chars(cur.as_slice(), nc.as_slice()) {
                self.entries.set(i, (name, path));
                proof {
                    lemma_icon_put_at(orig, name@, path@, i as int);
                    assert(self@ =~= orig.update(i as int, (name@, path@)));
                }
                return ;
            }
            i += 1;
        }
        self.entries.push((name, path));
        proof {
            lemma_icon_put_absent(orig, name@, path@);
            assert(self@ =~= orig.push((name@, path@)));
        }
    }
}

/// Storing over the name's first record updates it in place.
proof fn lemma_icon_put_at(v: Seq<(Seq<char>, Seq<char>)>, name: Seq<char>, path: Seq<char>, i: int)
    requires
        0 <= i < v.len(),
        v[i].0 == name,
        forall|j: int| 0 <= j < i ==> v[j].0 != name,
    ensures
        icon_put_spec(v, name, path) == v.update(i, (name, path)),
    decreases v.len(),
{
    if i == 0 {
        assert(icon_put_spec(v, name, path) =~= v.update(0, (name, path)));
    } else {
        lemma_icon_put_at(v.drop_first(), name, path, i - 1);
        assert(icon_put_spec(v, name, path) =~= v.update(i, (name, path)));
    }
}

/// Storing a new name appends its record.
proof fn lemma_icon_put_absent(v: Seq<(Seq<char>, Seq<char>)>, name: Seq<char>, path: Seq<char>)
    requires
        forall|j: int| 0 <= j < v.len() ==> v[j].0 != name,
    ensures
        icon_put_spec(v, name, path) == v.push((name, path)),
    decreases v.len(),
{
    if v.len() == 0 {
        assert(icon_put_spec(v, name, path) =~= v.push((name, path)));
    } else {
        lemma_icon_put_absent(v.drop_first(), name, path);
        assert(icon_put_spec(v, name, path) =~= v.push((name, path)));
    }
}

impl IconMap {
    /// The recorded pairs, in table order.
    pub fn pairs(&self) -> (r: &Vec<(String, String)>)
        ensures
            r.deep_view() == self@,
    {
        &self.entries
    }
}

/// Whether a file name names an icon: it ends in `.png` or `.svg`.
pub open spec fn is_icon_file(name: Seq<char>) -> bool {
    name.len() >= 4 && (name.subrange(name.len() - 4, name.len() as int) == ".png"@
        || name.subrange(name.len() - 4, name.len() as int) == ".svg"@)
}

/// The icon name a file stands for: the file name up to its first dot.
pub open spec fn icon_stem(name: Seq<char>) -> Seq<char> {
    name.subrange(0, crate::text::first_index_of(name, '.'))
}

/// The table the icon scan builds: each icon file records its stem,
/// later files replacing earlier ones.
pub open spec fn icon_scan(
    acc: Seq<(Seq<char>, Seq<char>)>,
    files: Seq<(Seq<char>, Seq<char>)>,
) -> Seq<(Seq<char>, Seq<char>)>
    decreases files.len(),
{
    if files.len() == 0 {
        acc
    } else {
        let step = if is_icon_file(files[0].0) {
            icon_put_spec(acc, icon_stem(files[0].0), files[0].1)
        } else {
            acc
        };
        icon_scan(step, files.drop_first())
    }
}

/// Scanning distributes over appending one file.
proof fn lemma_icon_scan_snoc(
    acc: Seq<(Seq<char>, Seq<char>)>,
    files: Seq<(Seq<char>, Seq<char>)>,
    x: (Seq<char>, Seq<char>),
)
    ensures
        icon_scan(acc, files.push(x)) == if is_icon_file(x.0) {
            icon_put_spec(icon_scan(acc, files), icon_stem(x.0), x.1)
        } else {
            icon_scan(acc, files)
        },
    decreases files.len(),
{
    if files.len() == 0 {
        assert(files.push(x)[0] == x);
        assert(files.push(x).drop_first() =~= files);
        if is_icon_file(x.0) {
            let stepped = icon_put_spec(acc, icon_stem(x.0), x.1);
            assert(icon_scan(stepped, files) == stepped);
        }
        assert(icon_scan(acc, files) == acc);
    } else {
        assert(files.push(x)[0] == files[0]);
        assert(files.push(x).drop_first() =~= files.drop_first().push(x));
        let step = if is_icon_file(files[0].0) {
            icon_put_spec(acc, icon_stem(files[0].0), files[0].1)
        } else {
            acc
        };
        lemma_icon_scan_snoc(step, files.drop_first(), x);
    }
}

/// Build the icon table from scanned files: file name and full path
/// pairs, in scan order. Only `.png` and `.svg` files are recorded,
/// under the file name's stem, later files replacing earlier ones.
pub fn build_icon_map(files: &Vec<(String, String)>) -> (r: IconMap)
    ensures
        r@ == icon_scan(Seq::empty(), files.deep_view()),
{
    let ghost fv = files.deep_view();
    let mut map = IconMap::new();
    proof {
        assert(fv.subrange(0, 0) =~= Seq::<(Seq<char>, Seq<char>)>::empty());
        assert(map@ == icon_scan(Seq::empty(), fv.subrange(0, 0)));
    }
    let mut i: usize = 0;
    while i < files.len()
        invariant
            i <= files@.len(),
            fv == files.deep_view(),
            map@ == icon_scan(Seq::empty(), fv.subrange(0, i as int)),
        decreases files@.len() - i,
    {
        proof {
            lemma_icon_scan_snoc(Seq::empty(), fv.subrange(0, i as int), fv[i as int]);
            assert(fv.subrange(0, i + 1) =~= fv.subrange(0, i as int).push(fv[i as int]));
            assert(fv[i as int] == (files@[i as int].0@, files@[i as int].1@));
        }
        let name = str_chars(files[i].0.as_str());
        let n = name.len();
        let is_icon: bool = if n >= 4 {
            let tail: &[char] = &name.as_slice()[n - 4..n];
            crate::text::eq_chars(tail, str_chars(".png").as_slice()) || crate::text::eq_chars(
                tail,
                str_chars(".svg").as_slice(),
            )
        } else {
            false
        };
        proof {
            if n >= 4 {
                assert(name@.subrange(n - 4, n as int) =~= name@.subrange(
                    name@.len() - 4,
                    name@.len() as int,
                ));
            }
            assert(is_icon == is_icon_file(fv[i as int].0));
        }
        if is_icon {
            let dot = crate::text::find_first(name.as_slice(), '.');
            let stem_sl: &[char] = &name.as_slice()[0..dot];
            let stem = chars_to_string(stem_sl);
            proof {
                assert(stem@ =~= icon_stem(fv[i as int].0));
            }
            map.put(stem, files[i].1.clone());
        }
        i += 1;
    }
    proof {
        assert(fv.subrange(0, fv.len() as int) =~= fv);
    }
    map
}

/// Supplies the icon table.
pub trait IconMapProvider {
    /// What table the provider would hand out, if any.
    open spec fn icon_map_spec(&self) -> Option<Seq<(Seq<char>, Seq<char>)>> {
        None
    }

    /// Obtain the icon table; `None` when it cannot be read.
    fn get_icon_map(&self) -> (r: Option<IconMap>)
        ensures
            match r {
                Some(m) => self.icon_map_spec() == Some(m@),
                None => self.icon_map_spec() is None,
            },
    ;
}

/// A provider over a table already in memory.
pub struct DefaultIconMapProvider {
    pub map: Vec<(String, String)>,
}

impl IconMapProvider for DefaultIconMapProvider {
    open spec fn icon_map_spec(&self) -> Option<Seq<(Seq<char>, Seq<char>)>> {
        Some(self.map.deep_view())
    }

    fn get_icon_map(&self) -> (r: Option<IconMap>) {
        let mut pairs: Vec<(String, String)> = Vec::new();
        let mut i: usize = 0;
        while i < self.map.len()
            invariant
                i <= self.map@.len(),
                pairs@ == self.map@.subrange(0, i as int),
            decreases self.map@.len() - i,
        {
            pairs.push((self.map[i].0.clone(), self.map[i].1.clone()));
            i += 1;
            proof {
                assert((self.map@[i - 1].0, self.map@[i - 1].1) == self.map@[i - 1]);
                assert(pairs@ =~= self.map@.subrange(0, i as int));
            }
        }
        proof {
            assert(pairs@ =~= self.map@);
            assert(pairs.deep_view() =~= self.map.deep_view());
        }
        Some(IconMap::from_pairs(pairs))
    }
}

/// The label an entry is shown under: its description, else its program
/// name, else `unknown`.
pub open spec fn description_of(c: CfgV) -> Seq<char> {
    match c.description {
        Some(d) => d,
        None => match c.binary {
            Some(b) => b,
            None => "unknown"@,
        },
    }
}

/// The icon name an entry asks for: its icon, else its program name,
/// else `unknown`.
pub open spec fn icon_name_of(c: CfgV) -> Seq<char> {
    match c.icon {
        Some(i) => i,
        None => match c.binary {
            Some(b) => b,
            None => "unknown"@,
        },
    }
}

/// One line of front-end input for an entry: the label alone, or the
/// label with its icon path attached.
pub open spec fn fuzzel_line(c: CfgV, no_icons: bool, map: Seq<(Seq<char>, Seq<char>)>) -> Seq<
    char,
> {
    if no_icons {
        description_of(c) + seq!['\n']
    } else {
        let path = match icon_lookup(map, icon_name_of(c)) {
            Some(p) => p,
            None => "default"@,
        };
        description_of(c) + seq!['\u{0}'] + "icon"@ + seq!['\u{1f}'] + path + seq!['\n']
    }
}

/// The whole front-end input, one line per entry.
pub open spec fn fuzzel_input_spec(
    cfgs: Seq<CfgV>,
    no_icons: bool,
    map: Seq<(Seq<char>, Seq<char>)>,
) -> Seq<char>
    decreases cfgs.len(),
{
    if cfgs.len() == 0 {
        Seq::empty()
    } else {
        fuzzel_line(cfgs[0], no_icons, map) + fuzzel_input_spec(cfgs.drop_first(), no_icons, map)
    }
}

/// The views of a list of entries.
pub open spec fn cfgs_view(cfgs: Seq<RaffiConfig>) -> Seq<CfgV> {
    cfgs.map_values(|c: RaffiConfig| c@)
}

/// One entry's line appended at the end.
proof fn lemma_fuzzel_snoc(
    cfgs: Seq<CfgV>,
    c: CfgV,
    no_icons: bool,
    map: Seq<(Seq<char>, Seq<char>)>,
)
    ensures
        fuzzel_input_spec(cfgs.push(c), no_icons, map) == fuzzel_input_spec(cfgs, no_icons, map)
            + fuzzel_line(c, no_icons, map),
    decreases cfgs.len(),
{
    if cfgs.len() == 0 {
        assert(cfgs.push(c)[0] == c);
        assert(cfgs.push(c).drop_first() =~= cfgs);
        assert(fuzzel_input_spec(cfgs.push(c), no_icons, map) == fuzzel_line(c, no_icons, map)
            + fuzzel_input_spec(cfgs, no_icons, map));
        assert(fuzzel_line(c, no_icons, map) + fuzzel_input_spec(cfgs, no_icons, map)
            =~= fuzzel_input_spec(cfgs, no_icons, map) + fuzzel_line(c, no_icons, map));
    } else {
        lemma_fuzzel_snoc(cfgs.drop_first(), c, no_icons, map);
        assert(cfgs.push(c).drop_first() =~= cfgs.drop_first().push(c));
        assert(cfgs.push(c)[0] == cfgs[0]);
        assert(fuzzel_input_spec(cfgs.push(c), no_icons, map) == fuzzel_line(
            cfgs[0],
            no_icons,
            map,
        ) + fuzzel_input_spec(cfgs.drop_first().push(c), no_icons, map));
        assert(fuzzel_line(cfgs[0], no_icons, map) + (fuzzel_input_spec(
            cfgs.drop_first(),
            no_icons,
            map,
        ) + fuzzel_line(c, no_icons, map)) =~= (fuzzel_line(cfgs[0], no_icons, map)
            + fuzzel_input_spec(cfgs.drop_first(), no_icons, map)) + fuzzel_line(
            c,
            no_icons,
            map,
        ));
    }
}

/// Append one entry's line to the growing input.
fn push_fuzzel_line(
    out: &mut Vec<char>,
    mc: &RaffiConfig,
    no_icons: bool,
    map: &IconMap,
)
    ensures
        final(out)@ == old(out)@ + fuzzel_line(mc@, no_icons, map@),
{
    let desc: &str = match &mc.description {
        Some(d) => d.as_str(),
        None => match &mc.binary {
            Some(b) => b.as_str(),
            None => "unknown",
        },
    };
    let dc = str_chars(desc);
    proof {
        assert(dc@ == description_of(mc@));
    }
    out.extend_from_slice(dc.as_slice());
    if no_icons {
        out.push('\n');
        proof {
            assert(out@ =~= old(out)@ + fuzzel_line(mc@, no_icons, map@));
        }
        return ;
    }
    let icon: &str = match &mc.icon {
        Some(i) => i.as_str(),
        None => match &mc.binary {
            Some(b) => b.as_str(),
            None => "unknown",
        },
    };
    let ic = str_chars(icon);
    proof {
        assert(ic@ == icon_name_of(mc@));
    }
    let path: String = match map.get(ic.as_slice()) {
        Some(p) => p,
        None => String::from_str("default"),
    };
    out.push('\u{0}');
    let tag = str_chars("icon");
    out.extend_from_slice(tag.as_slice());
    out.push('\u{1f}');
    let pc = str_chars(path.as_str());
    out.extend_from_slice(pc.as_slice());
    out.push('\n');
    proof {
        assert(out@ =~= old(out)@ + fuzzel_line(mc@, no_icons, map@));
    }
}

/// Build the front-end input for the entries: one line per entry, the
/// label and, unless icons are off, the icon path the table gives.
pub fn make_fuzzel_input<P: IconMapProvider>(
    rafficonfigs: &[RaffiConfig],
    no_icons: bool,
    icon_map_provider: &P,
) -> (r: Result<String, LauncherError>)
    ensures
        match r {
            Ok(s) => (no_icons ==> s@ == fuzzel_input_spec(
                cfgs_view(rafficonfigs@),
                true,
                Seq::empty(),
            )) && (!no_icons ==> icon_map_provider.icon_map_spec() is Some && s@
                == fuzzel_input_spec(
                cfgs_view(rafficonfigs@),
                false,
                icon_map_provider.icon_map_spec()->Some_0,
            )),
            Err(e) => !no_icons && icon_map_provider.icon_map_spec() is None && e
                == LauncherError::IconMapUnavailable,
        },
{
    let map: IconMap;
    if no_icons {
        map = IconMap::new();
    } else {
        match icon_map_provider.get_icon_map() {
            Some(m) => {
                map = m;
            },
            None => {
                return Err(LauncherError::IconMapUnavailable);
            },
        }
    }
    let ghost cv = cfgs_view(rafficonfigs@);
    let mut out: Vec<char> = Vec::new();
    proof {
        assert(cv.subrange(0, 0) =~= Seq::<CfgV>::empty());
        assert(out@ =~= fuzzel_input_spec(cv.subrange(0, 0), no_icons, map@));
    }
    let mut i: usize = 0;
    while i < rafficonfigs.len()
        invariant
            i <= rafficonfigs@.len(),
            cv == cfgs_view(rafficonfigs@),
            out@ == fuzzel_input_spec(cv.subrange(0, i as int), no_icons, map@),
        decreases rafficonfigs@.len() - i,
    {
        push_fuzzel_line(&mut out, &rafficonfigs[i], no_icons, &map);
        proof {
            lemma_fuzzel_snoc(cv.subrange(0, i as int), cv[i as int], no_icons, map@);
            assert(cv.subrange(0, i + 1) =~= cv.subrange(0, i as int).push(cv[i as int]));
        }
        i += 1;
    }
    proof {
        assert(cv.subrange(0, cv.len() as int) =~= cv);
        if no_icons {
            lemma_fuzzel_no_icons(cv, map@);
        }
    }
    Ok(chars_to_string(out.as_slice()))
}

/// With icons off the table plays no part.
proof fn lemma_fuzzel_no_icons(cfgs: Seq<CfgV>, map: Seq<(Seq<char>, Seq<char>)>)
    ensures
        fuzzel_input_spec(cfgs, true, map) == fuzzel_input_spec(cfgs, true, Seq::empty()),
    decreases cfgs.len(),
{
    if cfgs.len() > 0 {
        lemma_fuzzel_no_icons(cfgs.drop_first(), map);
    }
}

/// The words of a command line joined by single spaces.
pub open spec fn join_spaces(parts: Seq<Seq<char>>) -> Seq<char>
    decreases parts.len(),
{
    if parts.len() == 0 {
        Seq::empty()
    } else if parts.len() == 1 {
        parts[0]
    } else {
        parts[0] + seq![' '] + join_spaces(parts.drop_first())
    }
}

/// Join words with single spaces.
pub fn join_spaces_exec(parts: &Vec<String>) -> (r: Vec<char>)
    ensures
        r@ == join_spaces(parts.deep_view()),
    decreases parts@.len(),
{
    let mut out: Vec<char> = Vec::new();
    if parts.len() == 0 {
        proof {
            assert(out@ =~= join_spaces(parts.deep_view()));
        }
        return out;
    }
    let mut i: usize = 0;
    while i < parts.len()
        invariant
            i <= parts@.len(),
            parts@.len() >= 1,
            out@ == join_prefix(parts.deep_view(), i as int),
        decreases parts@.len() - i,
    {
        if i > 0 {
            out.push(' ');
        }
        let wc = str_chars(parts[i].as_str());
        out.extend_from_slice(wc.as_slice());
        proof {
            assert(parts.deep_view()[i as int] == parts@[i as int]@);
            assert(out@ =~= join_prefix(parts.deep_view(), i + 1));
        }
        i += 1;
    }
    proof {
        lemma_join_prefix_full(parts.deep_view());
    }
    out
}

/// The join of the first `i` words.
pub open spec fn join_prefix(parts: Seq<Seq<char>>, i: int) -> Seq<char>
    decreases i,
{
    if i <= 0 {
        Seq::empty()
    } else if i == 1 {
        parts[0]
    } else {
        join_prefix(parts, i - 1) + seq![' '] + parts[i - 1]
    }
}

/// Both readings of the join agree on the whole list.
proof fn lemma_join_prefix_full(parts: Seq<Seq<char>>)
    ensures
        join_prefix(parts, parts.len() as int) == join_spaces(parts),
    decreases parts.len(),
{
    lemma_join_agree(parts, parts.len() as int);
    assert(parts.subrange(0, parts.len() as int) =~= parts);
}

/// The back-to-front reading equals the front-to-back one.
proof fn lemma_join_agree(parts: Seq<Seq<char>>, i: int)
    requires
        0 <= i <= parts.len(),
    ensures
        join_prefix(parts, i) == join_spaces(parts.subrange(0, i)),
    decreases i,
{
    if i <= 0 {
        assert(parts.subrange(0, 0) =~= Seq::<Seq<char>>::empty());
    } else if i == 1 {
        assert(parts.subrange(0, 1) =~= seq![parts[0]]);
        assert(join_spaces(parts.subrange(0, 1)) == parts[0]);
    } else {
        lemma_join_agree(parts, i - 1);
        lemma_join_snoc(parts.subrange(0, i - 1), parts[i - 1]);
        assert(parts.subrange(0, i) =~= parts.subrange(0, i - 1).push(parts[i - 1]));
    }
}

/// Joining distributes over appending one word.
proof fn lemma_join_snoc(parts: Seq<Seq<char>>, w: Seq<char>)
    requires
        parts.len() >= 1,
    ensures
        join_spaces(parts.push(w)) == join_spaces(parts) + seq![' '] + w,
    decreases parts.len(),
{
    if parts.len() == 1 {
        assert(parts.push(w)[0] == parts[0]);
        assert(parts.push(w).drop_first() =~= seq![w]);
        assert(join_spaces(seq![w]) == w);
        assert(join_spaces(parts.push(w)) == parts[0] + seq![' '] + w);
        assert(join_spaces(parts) == parts[0]);
    } else {
        lemma_join_snoc(parts.drop_first(), w);
        assert(parts.push(w).drop_first() =~= parts.drop_first().push(w));
        assert(parts.push(w)[0] == parts[0]);
        assert(join_spaces(parts.push(w)) == parts[0] + seq![' '] + join_spaces(
            parts.drop_first().push(w),
        ));
        assert(parts[0] + seq![' '] + (join_spaces(parts.drop_first()) + seq![' '] + w) =~= (
        parts[0] + seq![' '] + join_spaces(parts.drop_first())) + seq![' '] + w);
    }
}

/// What executing a chosen entry comes to.
#[derive(Debug)]
pub enum LaunchPlan {
    /// Print a script with its interpreter line, do not run it.
    PrintScript { header: String, script: String },
    /// Print the command line, do not run it.
    PrintCommand { line: String },
    /// Run a script through its interpreter.
    RunScript { interpreter: String, script: String, extra_args: Option<Vec<String>> },
    /// Run a program with its arguments.
    RunCommand { program: String, args: Vec<String> },
}

/// The interpreter line of a printed script: the interpreter, and the
/// entry's arguments appended.
pub open spec fn interpreter_with_args(c: CfgV, interpreter: Seq<char>) -> Seq<char> {
    match c.args {
        Some(a) => interpreter + seq![' '] + join_spaces(a),
        None => interpreter,
    }
}

/// Decide how a chosen entry is executed: scripts go through their
/// interpreter, plain entries run their program, and in print mode the
/// command is written out instead.
pub fn plan_execution(mc: &RaffiConfig, args: &Args, interpreter: &str) -> (r: Result<
    LaunchPlan,
    LauncherError,
>)
    ensures
        mc@.script is None && mc@.binary is None <==> (r matches Err(
            e,
        ) && e == LauncherError::BinaryMissing),
        args.print_only && mc@.script is Some ==> (r matches Ok(
            p,
        ) && (p matches LaunchPlan::PrintScript { header, script } && header@ == "#!/usr/bin/env -S"@
            + seq![' '] + interpreter_with_args(mc@, interpreter@) && script@ == mc@.script->Some_0)),
        args.print_only && mc@.script is None && mc@.binary is Some ==> (r matches Ok(
            p,
        ) && (p matches LaunchPlan::PrintCommand { line } && line@ == mc@.binary->Some_0 + seq![' ']
            + (match mc@.args {
            Some(a) => join_spaces(a),
            None => Seq::<char>::empty(),
        }))),
        !args.print_only && mc@.script is Some ==> (r matches Ok(p) && (p matches
            LaunchPlan::RunScript { interpreter: ip, script, extra_args } && ip@ == interpreter@
            && script@ == mc@.script->Some_0 && crate::config::opt_list_view(extra_args)
            == mc@.args)),
        !args.print_only && mc@.script is None && mc@.binary is Some ==> (r matches Ok(
            p,
        ) && (p matches LaunchPlan::RunCommand { program, args: pargs } && program@ == mc@.binary->Some_0
            && pargs.deep_view() == (match mc@.args {
            Some(a) => a,
            None => Seq::<Seq<char>>::empty(),
        }))),
{
    if args.print_only {
        match &mc.script {
            Some(sc) => {
                let mut header: Vec<char> = str_chars("#!/usr/bin/env -S");
                header.push(' ');
                let ic = str_chars(interpreter);
                header.extend_from_slice(ic.as_slice());
                match &mc.args {
                    Some(a) => {
                        header.push(' ');
                        let joined = join_spaces_exec(a);
                        header.extend_from_slice(joined.as_slice());
                        proof {
                            assert(header@ =~= "#!/usr/bin/env -S"@ + seq![' ']
                                + interpreter_with_args(mc@, interpreter@));
                        }
                    },
                    None => {
                        proof {
                            assert(header@ =~= "#!/usr/bin/env -S"@ + seq![' ']
                                + interpreter_with_args(mc@, interpreter@));
                        }
                    },
                }
                Ok(
                    LaunchPlan::PrintScript {
                        header: chars_to_string(header.as_slice()),
                        script: sc.clone(),
                    },
                )
            },
            None => {
                match &mc.binary {
                    Some(b) => {
                        let mut line: Vec<char> = str_chars(b.as_str());
                        line.push(' ');
                        match &mc.args {
                            Some(a) => {
                                let joined = join_spaces_exec(a);
                                line.extend_from_slice(joined.as_slice());
                            },
                            None => {
                            },
                        }
                        proof {
                            assert(line@ =~= mc@.binary->Some_0 + seq![' '] + (match mc@.args {
                                Some(a) => join_spaces(a),
                                None => Seq::<char>::empty(),
                            }));
                        }
                        Ok(LaunchPlan::PrintCommand { line: chars_to_string(line.as_slice()) })
                    },
                    None => Err(LauncherError::BinaryMissing),
                }
            },
        }
    } else {
        match &mc.script {
            Some(sc) => {
                let extra: Option<Vec<String>> = match &mc.args {
                    Some(a) => Some(a.clone()),
                    None => None,
                };
                proof {
                    match &extra {
                        Some(e) => {
                            assert(e.deep_view() =~= mc.args->Some_0.deep_view());
                        },
                        None => {
                        },
                    }
                }
                Ok(
                    LaunchPlan::RunScript {
                        interpreter: String::from_str(interpreter),
                        script: sc.clone(),
                        extra_args: extra,
                    },
                )
            },
            None => {
                match &mc.binary {
                    Some(b) => {
                        let pargs: Vec<String> = match &mc.args {
                            Some(a) => a.clone(),
                            None => Vec::new(),
                        };
                        proof {
                            match &mc.args {
                                Some(a) => {
                                    assert(pargs.deep_view() =~= a.deep_view());
                                },
                                None => {
                                    assert(pargs.deep_view() =~= Seq::<Seq<char>>::empty());
                                },
                            }
                        }
                        Ok(LaunchPlan::RunCommand { program: b.clone(), args: pargs })
                    },
                    None => Err(LauncherError::BinaryMissing),
                }
            },
        }
    }
}

} // verus!
