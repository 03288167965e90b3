//! Build-time helper that reads an MSBuild-style `.vcxproj` project
//! description and extracts, for one build configuration, the compiled
//! sources, include directories and library search paths, resolving every
//! discovered path relative to the project file with symlink-aware
//! normalization.

pub mod resolve;
pub mod sample_builder;
pub mod strutil;
pub mod vcpkg;
pub mod walker;
pub mod xmlio;

use vstd::prelude::*;
use walker::XmlEv;

verus! {

/// A `.vcxproj` introspection pass for one build configuration.
///
/// On input, `include_dirs` and `lib_dirs` may hold caller-supplied extra
/// directories; a configuration pass filters them to existing ones and
/// grows them with what the document and the package manager provide.
/// `links` injects the filesystem's symbolic-link answers: the `/`-joined
/// paths listed there are treated as symbolic links by path resolution.
#[derive(Debug)]
pub struct Vcxproj {
    /// Path of the project file; discovered paths are resolved relative
    /// to its directory.
    pub lib_proj: String,
    /// Configuration label matched (by substring) against `Condition`
    /// attributes, e.g. `Debug|x64`.
    pub condition: String,
    /// Include directories: caller-supplied on input, full set on output.
    pub include_dirs: Vec<String>,
    /// Library search directories: caller-supplied on input, full set on
    /// output.
    pub lib_dirs: Vec<String>,
    /// Compiled source files discovered in the document, resolved.
    pub sources: Vec<String>,
    /// Compiler flags chosen for the platform and configuration.
    pub flags: Vec<String>,
    /// Target base name (project file name without extension).
    pub target: String,
    /// Expected output artifact path, where the platform defines one.
    pub target_fn: String,
    /// Paths (joined with `/`) that name symbolic links on disk.
    pub links: Vec<String>,
}

/// The walker's starting state for a configuration pass: empty stacks
/// and whatever the pass has already collected.
pub open spec fn init_walk(v: Vcxproj) -> walker::WalkState {
    walker::WalkState {
        paths: Seq::<Seq<char>>::empty(),
        skip: Seq::<int>::empty(),
        cur: Seq::<char>::empty(),
        sources: v.sources.deep_view(),
        incs: v.include_dirs.deep_view(),
        failed: false,
        done: false,
    }
}

impl Vcxproj {
    /// Starts a configuration pass for the given project file, requesting
    /// the debug or release `x64` variant.
    pub fn new(proj_fn: &str, is_debug: bool) -> (r: Self)
        ensures
            r.lib_proj@ == proj_fn@,
            is_debug ==> r.condition@ == "Debug|x64"@,
            !is_debug ==> r.condition@ == "Release|x64"@,
            r.include_dirs@ == Seq::<String>::empty(),
            r.lib_dirs@ == Seq::<String>::empty(),
            r.sources@ == Seq::<String>::empty(),
            r.flags@ == Seq::<String>::empty(),
            r.target@ == Seq::<char>::empty(),
            r.target_fn@ == Seq::<char>::empty(),
            r.links@ == Seq::<String>::empty(),
    {
        Vcxproj {
            lib_proj: proj_fn.to_owned(),
            condition: if is_debug {
                "Debug|x64"
            } else {
                "Release|x64"
            }.to_owned(),
            include_dirs: Vec::new(),
            lib_dirs: Vec::new(),
            sources: Vec::new(),
            flags: Vec::new(),
            target: String::new(),
            target_fn: String::new(),
            links: Vec::new(),
        }
    }

    /// Whether the path joined from `v` is recorded as a symbolic link.
    pub fn is_link(&self, v: &Vec<String>) -> (r: bool)
        ensures
            r == resolve::stack_is_link(self.links.deep_view(), v.deep_view()),
    {
        let p = strutil::join_slash(v);
        strutil::contains_string(&self.links, p.as_str())
    }

    /// Resolves a candidate path relative to the project file's
    /// directory, collapsing `.` and `..` except across recorded symbolic
    /// links; empty and absolute candidates yield `None`.
    pub fn rela_path(&self, x: &str) -> (r: Option<String>)
        ensures
            resolve::opt_str_view(r) == resolve::spec_rela_path(
                self.lib_proj@,
                x@,
                self.links.deep_view(),
            ),
    {
        let xlen = x.unicode_len();
        if xlen == 0 {
            return Option::None;
        }
        let c0 = x.get_char(0);
        if c0 == '/' || c0 == '\\' {
            return Option::None;
        }
        if xlen >= 3 && x.get_char(1) == ':' {
            let c2 = x.get_char(2);
            if c2 == '/' || c2 == '\\' {
                return Option::None;
            }
        }
        assert(!resolve::spec_is_absolute(x@));
        let ghost links = self.links.deep_view();
        let ghost combined = resolve::proj_dir_segs(self.lib_proj@) + strutil::split_segments(x@);
        let mut items = strutil::split_path(self.lib_proj.as_str());
        proof {
            strutil::lemma_split_len_pos(self.lib_proj@);
        }
        let _ = items.pop();
        proof {
            assert(items.deep_view() =~= resolve::proj_dir_segs(self.lib_proj@));
        }
        let xs = strutil::split_path(x);
        let mut k: usize = 0;
        while k < xs.len()
            invariant
                0 <= k <= xs.len(),
                xs.deep_view() == strutil::split_segments(x@),
                items.deep_view() == resolve::proj_dir_segs(self.lib_proj@)
                    + strutil::split_segments(x@).take(k as int),
            decreases xs.len() - k,
        {
            let ghost prev = items.deep_view();
            assert(xs.deep_view()[k as int] == xs@[k as int]@);
            items.push(xs[k].clone());
            proof {
                assert(items.deep_view() =~= prev.push(xs.deep_view()[k as int]));
                assert(items.deep_view() =~= resolve::proj_dir_segs(self.lib_proj@)
                    + strutil::split_segments(x@).take(k + 1));
            }
            k += 1;
        }
        proof {
            assert(strutil::split_segments(x@).take(xs.deep_view().len() as int)
                =~= strutil::split_segments(x@));
            assert(items.deep_view() == combined);
        }
        let mut vec2: Vec<String> = Vec::new();
        let mut i: usize = 0;
        proof {
            assert(vec2.deep_view() =~= Seq::<Seq<char>>::empty());
        }
        while i < items.len()
            invariant
                0 <= i <= items.len(),
                items.deep_view() == combined,
                vec2.deep_view() == resolve::resolve_onto(
                    Seq::<Seq<char>>::empty(),
                    combined.take(i as int),
                    links,
                ),
                links == self.links.deep_view(),
            decreases items.len() - i,
        {
            let top_link = self.is_link(&vec2);
            assert(items.deep_view()[i as int] == items@[i as int]@);
            resolve::resolve_push(&mut vec2, items[i].as_str(), top_link);
            proof {
                resolve::lemma_resolve_snoc(
                    Seq::<Seq<char>>::empty(),
                    combined.take(i as int),
                    combined[i as int],
                    links,
                );
                assert(combined.take(i + 1) =~= combined.take(i as int).push(combined[i as int]));
            }
            i += 1;
        }
        proof {
            assert(combined.take(items.deep_view().len() as int) =~= combined);
        }
        if vec2.len() == 0 {
            Option::None
        } else {
            Option::Some(strutil::join_slash(&vec2))
        }
    }

    /// Appends the resolved `Include` attribute, if any, to the compiled
    /// sources; the extraction rule for `Project/ItemGroup/ClCompile`.
    fn add_source_from(&mut self, attrs: &Vec<(String, String)>)
        ensures
            final(self).sources.deep_view() == (match walker::find_attr(
                attrs.deep_view(),
                "Include"@,
            ) {
                Option::Some(v) => match resolve::spec_rela_path(
                    old(self).lib_proj@,
                    v,
                    old(self).links.deep_view(),
                ) {
                    Option::Some(p) => old(self).sources.deep_view().push(p),
                    Option::None => old(self).sources.deep_view(),
                },
                Option::None => old(self).sources.deep_view(),
            }),
            final(self).lib_proj == old(self).lib_proj,
            final(self).condition == old(self).condition,
            final(self).include_dirs == old(self).include_dirs,
            final(self).lib_dirs == old(self).lib_dirs,
            final(self).flags == old(self).flags,
            final(self).target == old(self).target,
            final(self).target_fn == old(self).target_fn,
            final(self).links == old(self).links,
    {
        match walker::find_attr_str(attrs, "Include") {
            Option::Some(v) => {
                match self.rela_path(v.as_str()) {
                    Option::Some(p) => {
                        let ghost prev = self.sources.deep_view();
                        let ghost pv = p@;
                        self.sources.push(p);
                        proof {
                            assert(self.sources.deep_view() =~= prev.push(pv));
                        }
                    },
                    Option::None => {},
                }
            },
            Option::None => {},
        }
    }

    /// Splits character data on `;` and appends each piece that resolves
    /// to the include directories; the extraction rule for
    /// `Project/ItemDefinitionGroup/ClCompile/AdditionalIncludeDirectories`.
    fn add_inc_dirs(&mut self, text: &str)
        ensures
            final(self).include_dirs.deep_view() == old(self).include_dirs.deep_view()
                + walker::resolve_pieces(
                walker::split_semi(text@),
                old(self).lib_proj@,
                old(self).links.deep_view(),
            ),
            final(self).lib_proj == old(self).lib_proj,
            final(self).condition == old(self).condition,
            final(self).sources == old(self).sources,
            final(self).lib_dirs == old(self).lib_dirs,
            final(self).flags == old(self).flags,
            final(self).target == old(self).target,
            final(self).target_fn == old(self).target_fn,
            final(self).links == old(self).links,
    {
        let ghost proj = self.lib_proj@;
        let ghost links = self.links.deep_view();
        let ghost incs0 = self.include_dirs.deep_view();
        let pieces = walker::split_semi_str(text);
        let ghost pviews = pieces.deep_view();
        let mut j: usize = 0;
        proof {
            assert(pviews.take(0) =~= Seq::<Seq<char>>::empty());
            assert(incs0 + walker::resolve_pieces(pviews.take(0), proj, links) =~= incs0);
        }
        while j < pieces.len()
            invariant
                0 <= j <= pieces.len(),
                pieces.deep_view() == pviews,
                pviews == walker::split_semi(text@),
                proj == old(self).lib_proj@,
                links == old(self).links.deep_view(),
                incs0 == old(self).include_dirs.deep_view(),
                self.include_dirs.deep_view() == incs0 + walker::resolve_pieces(
                    pviews.take(j as int),
                    proj,
                    links,
                ),
                self.lib_proj == old(self).lib_proj,
                self.condition == old(self).condition,
                self.sources == old(self).sources,
                self.lib_dirs == old(self).lib_dirs,
                self.flags == old(self).flags,
                self.target == old(self).target,
                self.target_fn == old(self).target_fn,
                self.links == old(self).links,
            decreases pieces.len() - j,
        {
            proof {
                assert(pviews.take(j + 1).drop_last() =~= pviews.take(j as int));
                assert(pviews.take(j + 1).last() == pviews[j as int]);
                assert(pieces.deep_view()[j as int] == pieces@[j as int]@);
            }
            match self.rela_path(pieces[j].as_str()) {
                Option::Some(p) => {
                    let ghost prev = self.include_dirs.deep_view();
                    let ghost pv = p@;
                    self.include_dirs.push(p);
                    proof {
                        assert(self.include_dirs.deep_view() =~= prev.push(pv));
                    }
                },
                Option::None => {},
            }
            j += 1;
        }
        proof {
            assert(pviews.take(pieces.deep_view().len() as int) =~= pviews);
        }
    }

    /// Runs the document walk over a parsed event stream, appending
    /// discovered sources and include directories; reports whether the
    /// stream ended without a parser failure. Whatever was collected
    /// before a failure is kept.
    pub fn load_vcxproj(&mut self, events: &Vec<XmlEv>) -> (ok: bool)
        ensures
            ({
                let w = walker::walk_evs(
                    init_walk(*old(self)),
                    events@,
                    old(self).condition@,
                    old(self).lib_proj@,
                    old(self).links.deep_view(),
                );
                &&& final(self).sources.deep_view() == w.sources
                &&& final(self).include_dirs.deep_view() == w.incs
                &&& ok == !w.failed
            }),
            final(self).lib_proj == old(self).lib_proj,
            final(self).condition == old(self).condition,
            final(self).lib_dirs == old(self).lib_dirs,
            final(self).flags == old(self).flags,
            final(self).target == old(self).target,
            final(self).target_fn == old(self).target_fn,
            final(self).links == old(self).links,
    {
        let ghost cond = self.condition@;
        let ghost proj = self.lib_proj@;
        let ghost links = self.links.deep_view();
        let ghost st0 = init_walk(*self);
        let mut xml_paths: Vec<String> = Vec::new();
        let mut skip: Vec<u8> = Vec::new();
        let mut skip_sum: usize = 0;
        let mut cur_path = String::new();
        let mut i: usize = 0;
        proof {
            assert(events@.take(0) =~= Seq::<XmlEv>::empty());
            assert(xml_paths.deep_view() =~= Seq::<Seq<char>>::empty());
            assert(skip@.map_values(|b: u8| b as int) =~= Seq::<int>::empty());
        }
        while i < events.len()
            invariant
                0 <= i <= events.len(),
                cond == old(self).condition@,
                proj == old(self).lib_proj@,
                links == old(self).links.deep_view(),
                st0 == init_walk(*old(self)),
                ({
                    let st = walker::walk_evs(st0, events@.take(i as int), cond, proj, links);
                    &&& !st.done && !st.failed
                    &&& xml_paths.deep_view() == st.paths
                    &&& skip@.map_values(|b: u8| b as int) == st.skip
                    &&& cur_path@ == st.cur
                    &&& self.sources.deep_view() == st.sources
                    &&& self.include_dirs.deep_view() == st.incs
                }),
                skip.len() == xml_paths.len(),
                skip.len() <= i,
                forall|k: int| 0 <= k < skip@.len() ==> #[trigger] skip@[k] <= 1,
                skip_sum == walker::sum_seq(skip@.map_values(|b: u8| b as int)),
                skip_sum <= skip.len(),
                self.lib_proj == old(self).lib_proj,
                self.condition == old(self).condition,
                self.lib_dirs == old(self).lib_dirs,
                self.flags == old(self).flags,
                self.target == old(self).target,
                self.target_fn == old(self).target_fn,
                self.links == old(self).links,
            decreases events.len() - i,
        {
            let ghost st = walker::walk_evs(st0, events@.take(i as int), cond, proj, links);
            proof {
                walker::lemma_walk_snoc(st0, events@.take(i as int), events@[i as int], cond, proj, links);
                assert(events@.take(i + 1) =~= events@.take(i as int).push(events@[i as int]));
            }
            let ghost st2 = walker::walk_ev(st, events@[i as int], cond, proj, links);
            match &events[i] {
                XmlEv::Start { name, attrs } => {
                    let ghost prev_paths = xml_paths.deep_view();
                    let ghost prev_skip = skip@.map_values(|b: u8| b as int);
                    xml_paths.push(name.clone());
                    proof {
                        assert(xml_paths.deep_view() =~= prev_paths.push(name@));
                    }
                    cur_path = strutil::join_slash(&xml_paths);
                    let mut entry: u8 = 0;
                    proof {
                        reveal_strlit("Project/ItemGroup/ClCompile");
                        reveal_strlit("Project/ItemDefinitionGroup");
                        assert("Project/ItemGroup/ClCompile"@[12] == 'G');
                        assert("Project/ItemDefinitionGroup"@[12] == 'D');
                    }
                    if strutil::str_eq(cur_path.as_str(), "Project/ItemGroup/ClCompile") {
                        self.add_source_from(attrs);
                    } else if strutil::str_eq(cur_path.as_str(), "Project/ItemDefinitionGroup") {
                        match walker::find_attr_str(attrs, "Condition") {
                            Option::Some(v) => {
                                if !strutil::contains_sub(v.as_str(), self.condition.as_str()) {
                                    entry = 1;
                                }
                            },
                            Option::None => {},
                        }
                    }
                    skip.push(entry);
                    if entry == 1 {
                        skip_sum = skip_sum + 1;
                    }
                    proof {
                        assert(skip@.map_values(|b: u8| b as int) =~= prev_skip.push(
                            entry as int,
                        ));
                        assert(skip@.map_values(|b: u8| b as int).drop_last() =~= prev_skip);
                        assert(walker::sum_seq(skip@.map_values(|b: u8| b as int))
                            == walker::sum_seq(prev_skip) + entry as int);
                        assert(xml_paths.deep_view() == st2.paths);
                        assert(skip@.map_values(|b: u8| b as int) == st2.skip);
                        assert(self.sources.deep_view() == st2.sources);
                        assert(self.include_dirs.deep_view() == st2.incs);
                    }
                },
                XmlEv::End => {
                    if xml_paths.len() > 0 {
                        let ghost prev_paths = xml_paths.deep_view();
                        let ghost prev_skip = skip@.map_values(|b: u8| b as int);
                        let _ = xml_paths.pop();
                        let popped = skip.pop().unwrap();
                        proof {
                            assert(xml_paths.deep_view() =~= prev_paths.drop_last());
                            assert(skip@.map_values(|b: u8| b as int) =~= prev_skip.drop_last());
                            assert(walker::sum_seq(prev_skip) == walker::sum_seq(
                                prev_skip.drop_last(),
                            ) + prev_skip.last());
                            walker::lemma_sum_bounds(prev_skip.drop_last());
                        }
                        if popped == 1 {
                            skip_sum = skip_sum - 1;
                        }
                        proof {
                            walker::lemma_sum_bounds(skip@.map_values(|b: u8| b as int));
                        }
                    }
                },
                XmlEv::Text(s) => {
                    proof {
                        walker::lemma_sum_bounds(skip@.map_values(|b: u8| b as int));
                    }
                    // the joined path is not recomputed on element close, so
                    // character data is gated on the path joined at the most
                    // recent element open, as the walk specification says
                    if skip_sum == 0 && strutil::str_eq(
                        cur_path.as_str(),
                        "Project/ItemDefinitionGroup/ClCompile/AdditionalIncludeDirectories",
                    ) {
                        self.add_inc_dirs(s.as_str());
                    }
                },
                XmlEv::Other => {},
                XmlEv::Eof => {
                    proof {
                        walker::lemma_walk_split(
                            st0,
                            events@.take(i + 1),
                            events@.skip(i + 1),
                            cond,
                            proj,
                            links,
                        );
                        assert(events@.take(i + 1) + events@.skip(i + 1) =~= events@);
                        walker::lemma_walk_stopped(st2, events@.skip(i + 1), cond, proj, links);
                    }
                    return true;
                },
                XmlEv::Fail => {
                    proof {
                        walker::lemma_walk_split(
                            st0,
                            events@.take(i + 1),
                            events@.skip(i + 1),
                            cond,
                            proj,
                            links,
                        );
                        assert(events@.take(i + 1) + events@.skip(i + 1) =~= events@);
                        walker::lemma_walk_stopped(st2, events@.skip(i + 1), cond, proj, links);
                    }
                    return false;
                },
            }
            i += 1;
        }
        proof {
            assert(events@.take(events@.len() as int) =~= events@);
        }
        true
    }

    /// Parses the document bytes and runs the walk over the resulting
    /// events: the whole extraction, tied to the document through the
    /// parser's named output.
    pub fn load_vcxproj_doc(&mut self, doc: &[u8]) -> (ok: bool)
        ensures
            ({
                let w = walker::walk_evs(
                    init_walk(*old(self)),
                    xmlio::parsed_events(doc@),
                    old(self).condition@,
                    old(self).lib_proj@,
                    old(self).links.deep_view(),
                );
                &&& final(self).sources.deep_view() == w.sources
                &&& final(self).include_dirs.deep_view() == w.incs
                &&& ok == !w.failed
            }),
            final(self).lib_proj == old(self).lib_proj,
            final(self).condition == old(self).condition,
            final(self).lib_dirs == old(self).lib_dirs,
            final(self).flags == old(self).flags,
            final(self).target == old(self).target,
            final(self).target_fn == old(self).target_fn,
            final(self).links == old(self).links,
    {
        let events = xmlio::parse_project(doc);
        self.load_vcxproj(&events)
    }

    /// The project file's base name: its final path segment without the
    /// extension. A name that is empty, `.` or `..` cannot serve as a
    /// target name and yields the empty string.
    pub fn basename(&self) -> (r: String)
        ensures
            r@ == spec_basename(self.lib_proj@),
    {
        proof {
            reveal_strlit("");
            reveal_strlit(".");
            reveal_strlit("..");
            assert(""@ =~= Seq::<char>::empty());
            assert("."@ =~= resolve::dot());
            assert(".."@ =~= resolve::dotdot());
            strutil::lemma_split_len_pos(self.lib_proj@);
        }
        let segs = strutil::split_path(self.lib_proj.as_str());
        let name = &segs[segs.len() - 1];
        proof {
            assert(segs.deep_view()[segs.deep_view().len() - 1] == segs@[segs@.len() - 1]@);
            assert(name@ == strutil::split_segments(self.lib_proj@).last());
        }
        if strutil::str_eq(name.as_str(), "") || strutil::str_eq(name.as_str(), ".")
            || strutil::str_eq(name.as_str(), "..") {
            return String::new();
        }
        let nlen = name.as_str().unicode_len();
        let mut last: usize = 0;
        let mut found = false;
        let mut i: usize = 0;
        while i < nlen
            invariant
                0 <= i <= nlen,
                nlen == name@.len(),
                found ==> 0 <= last < i && last_dot_at(name@.take(i as int)) == last,
                !found ==> last_dot_at(name@.take(i as int)) == -1,
            decreases nlen - i,
        {
            proof {
                assert(name@.take(i + 1).drop_last() =~= name@.take(i as int));
                assert(name@.take(i + 1).last() == name@[i as int]);
            }
            if name.as_str().get_char(i) == '.' {
                last = i;
                found = true;
            }
            i += 1;
        }
        proof {
            assert(name@.take(nlen as int) =~= name@);
        }
        if !found || last == 0 {
            name.clone()
        } else {
            let r = name.as_str().substring_char(0, last).to_owned();
            proof {
                assert(name@.subrange(0, last as int) =~= name@.take(last as int));
            }
            r
        }
    }

    /// Whether some library search directory holds the platform-named
    /// static library for `name`. `files` lists the paths that exist on
    /// disk as files, gathered by the caller.
    pub fn find_lib(&self, name: &str, is_windows: bool, files: &Vec<String>) -> (r: bool)
        ensures
            r == exists|i: int|
                0 <= i < self.lib_dirs@.len() && strutil::seq_has(
                    files.deep_view(),
                    lib_file_name(#[trigger] self.lib_dirs.deep_view()[i], name@, is_windows),
                ),
    {
        let mut i: usize = 0;
        while i < self.lib_dirs.len()
            invariant
                0 <= i <= self.lib_dirs.len(),
                self.lib_dirs.deep_view().len() == self.lib_dirs.len(),
                forall|j: int|
                    0 <= j < i ==> !strutil::seq_has(
                        files.deep_view(),
                        lib_file_name(#[trigger] self.lib_dirs.deep_view()[j], name@, is_windows),
                    ),
            decreases self.lib_dirs.len() - i,
        {
            proof {
                assert(self.lib_dirs.deep_view()[i as int] == self.lib_dirs@[i as int]@);
            }
            let mut p1 = self.lib_dirs[i].clone();
            if is_windows {
                p1.append("/");
                p1.append(name);
                p1.append(".lib");
            } else {
                p1.append("/lib");
                p1.append(name);
                p1.append(".a");
            }
            assert(p1@ == lib_file_name(self.lib_dirs.deep_view()[i as int], name@, is_windows));
            if strutil::contains_string(files, p1.as_str()) {
                return true;
            }
            i += 1;
        }
        false
    }

    /// Runs one whole configuration pass: filters the caller-supplied
    /// directories to existing ones, walks the document, appends the
    /// package manager's paths, derives the target name, and chooses the
    /// default flags and (on Windows) the expected artifact path.
    /// Reports whether the document walk succeeded; everything collected
    /// is kept either way.
    pub fn load_config(&mut self, env: &BuildEnv) -> (ok: bool)
        ensures
            ({
                let ex = env.existing_dirs.deep_view();
                let proj = old(self).lib_proj@;
                let links = old(self).links.deep_view();
                let inc0 = vcpkg::filter_in(old(self).include_dirs.deep_view(), ex);
                let lib0 = vcpkg::filter_in(old(self).lib_dirs.deep_view(), ex);
                let evs = (match env.events {
                    Option::Some(e) => e@,
                    Option::None => Seq::<XmlEv>::empty(),
                });
                let w = walker::walk_evs(
                    walker::WalkState {
                        paths: Seq::<Seq<char>>::empty(),
                        skip: Seq::<int>::empty(),
                        cur: Seq::<char>::empty(),
                        sources: old(self).sources.deep_view(),
                        incs: inc0,
                        failed: false,
                        done: false,
                    },
                    evs,
                    old(self).condition@,
                    proj,
                    links,
                );
                let is_debug = strutil::spec_contains(old(self).condition@, "Debug"@);
                let vc_lib = (match env.vcpkg_base {
                    Option::Some(b) => vcpkg::filter_in(vcpkg::lib_candidates(b@, is_debug), ex),
                    Option::None => Seq::<Seq<char>>::empty(),
                });
                let vc_inc = (match env.vcpkg_base {
                    Option::Some(b) => vcpkg::filter_in(vcpkg::inc_candidates(b@), ex),
                    Option::None => Seq::<Seq<char>>::empty(),
                });
                let tgt_sub = if is_debug {
                    "x64/Debug"@
                } else {
                    "x64/Release"@
                };
                let tgt_dir = (match resolve::spec_rela_path(proj, tgt_sub, links) {
                    Option::Some(p) => p,
                    Option::None => Seq::<char>::empty(),
                });
                &&& final(self).sources.deep_view() == w.sources
                &&& final(self).include_dirs.deep_view() == w.incs + vc_inc
                &&& final(self).lib_dirs.deep_view() == (if env.is_windows {
                    (lib0 + vc_lib).push(tgt_dir)
                } else {
                    lib0 + vc_lib
                })
                &&& final(self).target@ == spec_basename(proj)
                &&& final(self).target_fn@ == (if env.is_windows {
                    tgt_dir + "/"@ + spec_basename(proj) + ".lib"@
                } else {
                    old(self).target_fn@
                })
                &&& final(self).flags.deep_view() == old(self).flags.deep_view() + default_flags(
                    env.is_windows,
                    is_debug,
                )
                &&& final(self).lib_proj == old(self).lib_proj
                &&& final(self).condition == old(self).condition
                &&& final(self).links == old(self).links
                &&& ok == (env.events is Some && !w.failed)
            }),
    {
        let kept_inc = vcpkg::keep_existing(&self.include_dirs, &env.existing_dirs);
        self.include_dirs = kept_inc;
        let kept_lib = vcpkg::keep_existing(&self.lib_dirs, &env.existing_dirs);
        self.lib_dirs = kept_lib;
        let q = match &env.events {
            Option::Some(evs) => self.load_vcxproj(evs),
            Option::None => false,
        };
        let is_debug = strutil::contains_sub(self.condition.as_str(), "Debug");
        vcpkg::add_lib_paths(is_debug, &env.vcpkg_base, &env.existing_dirs, &mut self.lib_dirs);
        vcpkg::add_inc_paths(&env.vcpkg_base, &env.existing_dirs, &mut self.include_dirs);
        let t = self.basename();
        self.target = t;
        if env.is_windows {
            let sub = if is_debug {
                "x64/Debug"
            } else {
                "x64/Release"
            };
            let tgt_dir = match self.rela_path(sub) {
                Option::Some(p) => p,
                Option::None => String::new(),
            };
            let mut tf = tgt_dir.clone();
            tf.append("/");
            tf.append(self.target.as_str());
            tf.append(".lib");
            self.target_fn = tf;
            let ghost prev_libs = self.lib_dirs.deep_view();
            let ghost td = tgt_dir@;
            self.lib_dirs.push(tgt_dir);
            proof {
                assert(self.lib_dirs.deep_view() =~= prev_libs.push(td));
            }
        }
        push_flags(&mut self.flags, env.is_windows, is_debug);
        q
    }
}

/// What a configuration pass needs from the machine, gathered by the
/// caller: the parsed project document, which candidate directories
/// exist on disk, the package manager's install root, and the platform.
pub struct BuildEnv {
    /// Whether the artifact-naming (Windows) conventions apply.
    pub is_windows: bool,
    /// The parsed project document events; `None` when the file could
    /// not be read.
    pub events: Option<Vec<walker::XmlEv>>,
    /// Directories that exist on disk, among those the pass consults:
    /// the caller-supplied include and library directories and the
    /// package manager's candidate paths.
    pub existing_dirs: Vec<String>,
    /// The package manager's install root, when discovered.
    pub vcpkg_base: Option<String>,
}

/// The platform's static-library file for `name` under `dir`:
/// `<dir>/<name>.lib` on Windows, `<dir>/lib<name>.a` elsewhere.
pub open spec fn lib_file_name(dir: Seq<char>, name: Seq<char>, is_windows: bool) -> Seq<char> {
    if is_windows {
        dir + "/"@ + name + ".lib"@
    } else {
        dir + "/lib"@ + name + ".a"@
    }
}

/// The default compiler flags for a platform, ending with the
/// optimization flag the variant calls for.
pub open spec fn default_flags(is_windows: bool, is_debug: bool) -> Seq<Seq<char>> {
    if is_windows {
        seq![
            "/EHsc"@,
            "/utf-8"@,
            "/D_CRT_SECURE_NO_WARNINGS"@,
            "/D_CRT_NONSTDC_NO_WARNINGS"@,
            "/DUNICODE"@,
            "/D_UNICODE"@,
            "/Zi"@,
            "/FS"@,
            "/W3"@,
        ] + (if is_debug {
            seq!["/Od"@]
        } else {
            seq!["/O2"@]
        })
    } else {
        seq![
            "-Wno-unused-parameter"@,
            "-Wno-unused-result"@,
            "-Wno-multichar"@,
            "-Wno-missing-field-initializers"@,
            "-g"@,
        ] + (if is_debug {
            seq!["-O0"@]
        } else {
            seq!["-O3"@]
        })
    }
}

/// Appends the default flags for the platform and variant.
fn push_flags(flags: &mut Vec<String>, is_windows: bool, is_debug: bool)
    ensures
        final(flags).deep_view() == old(flags).deep_view() + default_flags(is_windows, is_debug),
{
    let ghost base0 = flags.deep_view();
    if is_windows {
        flags.push("/EHsc".to_owned());
        flags.push("/utf-8".to_owned());
        flags.push("/D_CRT_SECURE_NO_WARNINGS".to_owned());
        flags.push("/D_CRT_NONSTDC_NO_WARNINGS".to_owned());
        flags.push("/DUNICODE".to_owned());
        flags.push("/D_UNICODE".to_owned());
        flags.push("/Zi".to_owned());
        flags.push("/FS".to_owned());
        flags.push("/W3".to_owned());
        if is_debug {
            flags.push("/Od".to_owned());
        } else {
            flags.push("/O2".to_owned());
        }
    } else {
        flags.push("-Wno-unused-parameter".to_owned());
        flags.push("-Wno-unused-result".to_owned());
        flags.push("-Wno-multichar".to_owned());
        flags.push("-Wno-missing-field-initializers".to_owned());
        flags.push("-g".to_owned());
        if is_debug {
            flags.push("-O0".to_owned());
        } else {
            flags.push("-O3".to_owned());
        }
    }
    proof {
        assert(flags.deep_view() =~= base0 + default_flags(is_windows, is_debug));
    }
}

/// Index of the last `.` in a name, or `-1` when there is none.
pub open spec fn last_dot_at(name: Seq<char>) -> int
    decreases name.len(),
{
    if name.len() == 0 {
        -1
    } else if name.last() == '.' {
        name.len() - 1
    } else {
        last_dot_at(name.drop_last())
    }
}

/// A file name's stem: the part before the last `.`, except that a name
/// with no `.`, or only a leading one, is kept whole.
pub open spec fn spec_stem(name: Seq<char>) -> Seq<char> {
    let d = last_dot_at(name);
    if d <= 0 {
        name
    } else {
        name.take(d)
    }
}

/// The base name derived from a project path: the stem of its final
/// segment, or empty when that segment is empty, `.` or `..`.
pub open spec fn spec_basename(p: Seq<char>) -> Seq<char> {
    let name = strutil::split_segments(p).last();
    if name == Seq::<char>::empty() || name == resolve::dot() || name == resolve::dotdot() {
        Seq::<char>::empty()
    } else {
        spec_stem(name)
    }
}

/// Compiling a Windows resource script is a toolchain feature; on other
/// platforms there is nothing to do and the call trivially succeeds.
pub fn compile_rc(src: &str) -> (r: Option<()>)
    ensures
        r is Some,
{
    let _ = src;
    Option::Some(())
}

/// Rebuild decision over modification times: `None` means the file is
/// absent. The target must be rebuilt when it is absent or when some
/// dependency that exists is newer than it. An absent dependency never
/// forces a rebuild on its own (the caller reports it as a warning).
pub open spec fn spec_need_build(target: Option<u64>, deps: Seq<Option<u64>>) -> bool {
    match target {
        Option::None => true,
        Option::Some(t) => exists|i: int|
            0 <= i < deps.len() && ((#[trigger] deps[i]) matches Option::Some(d) && d > t),
    }
}

/// Decides whether a target must be rebuilt, given its modification time
/// and those of its dependencies (`None` = file absent).
pub fn need_build(target: Option<u64>, deps: &Vec<Option<u64>>) -> (r: bool)
    ensures
        r == spec_need_build(target, deps@),
{
    let t: u64 = match target {
        Option::None => { return true; },
        Option::Some(t) => t,
    };
    let mut i: usize = 0;
    while i < deps.len()
        invariant
            target == Option::Some(t),
            0 <= i <= deps.len(),
            forall|j: int| 0 <= j < i ==> !((#[trigger] deps@[j]) matches Option::Some(d) && d > t),
        decreases deps.len() - i,
    {
        match deps[i] {
            Option::Some(d) => {
                if d > t {
                    return true;
                }
            },
            Option::None => {},
        }
        i += 1;
    }
    false
}

} // verus!
