//! Where the firmware images are looked for.
//!
//! An image is named by an environment variable, or stands where the projects build it, side
//! by side below one root, or stands below the root of an older layout. The first that is
//! there is taken; if none is, the answer is the place where the image should have been built.
//!
//! Paths are texts in which `/` parts the components.
use crate::text;
use vstd::prelude::*;
use vstd::slice::slice_subrange;

verus! {

/// An image.
#[derive(Debug, Clone, Copy, PartialEq, Eq, Structural)]
pub enum Artifact {
    /// The kernel, as an ELF file.
    JocBase,
    /// The flight controller.
    Flyctrl,
    /// The flight controller that reads real sensors.
    FlyctrlReal,
    /// The driver test.
    Drvtest,
    /// The example application.
    Sdk,
}

/// The root of the older layout.
pub open spec fn legacy_root() -> Seq<char> {
    "/home/ubuntu/work"@
}

pub open spec fn strs(v: Seq<&'static str>) -> Seq<Seq<char>> {
    Seq::new(v.len(), |i: int| v[i]@)
}

pub open spec fn names(v: Seq<String>) -> Seq<Seq<char>> {
    Seq::new(v.len(), |i: int| v[i]@)
}

impl Artifact {
    /// The environment variable that names the image.
    pub open spec fn key(self) -> Seq<char> {
        match self {
            Artifact::JocBase => "JOC_BASE_ELF"@,
            Artifact::Flyctrl => "JOC_APP_FLYCTRL"@,
            Artifact::FlyctrlReal => "JOC_APP_FLYCTRL_REAL"@,
            Artifact::Drvtest => "JOC_APP_DRVTEST"@,
            Artifact::Sdk => "JOC_APP_SDK"@,
        }
    }

    /// The environment variable that names the image.
    pub fn env_key(self) -> (r: &'static str)
        ensures
            r@ == self.key(),
    {
        match self {
            Artifact::JocBase => "JOC_BASE_ELF",
            Artifact::Flyctrl => "JOC_APP_FLYCTRL",
            Artifact::FlyctrlReal => "JOC_APP_FLYCTRL_REAL",
            Artifact::Drvtest => "JOC_APP_DRVTEST",
            Artifact::Sdk => "JOC_APP_SDK",
        }
    }

    /// The places below the common root, best first.
    pub open spec fn places(self) -> Seq<Seq<char>> {
        match self {
            Artifact::JocBase => seq![
                "joc-base/build_hil/stm32f407_minimal.elf"@,
                "joc-base/build_hil/jOS.elf"@,
                "joc-base/build_rel/stm32f407_minimal.elf"@,
                "joc-base/build_rel/jOS.elf"@,
            ],
            Artifact::Flyctrl => seq!["flyctrl/app.bin"@],
            Artifact::FlyctrlReal => seq!["/tmp/flyctrl_real.bin"@, "flyctrl/app_real.bin"@],
            Artifact::Drvtest => seq!["joc-drvtest-app/app.bin"@],
            Artifact::Sdk => seq!["joc-rtos-app-sdk/app.bin"@],
        }
    }

    /// The places below the common root, best first.
    pub fn canonical(self) -> (r: Vec<&'static str>)
        ensures
            strs(r@) == self.places(),
    {
        let r: Vec<&'static str> = match self {
            Artifact::JocBase => vec![
                "joc-base/build_hil/stm32f407_minimal.elf",
                "joc-base/build_hil/jOS.elf",
                "joc-base/build_rel/stm32f407_minimal.elf",
                "joc-base/build_rel/jOS.elf",
            ],
            Artifact::Flyctrl => vec!["flyctrl/app.bin"],
            Artifact::FlyctrlReal => vec!["/tmp/flyctrl_real.bin", "flyctrl/app_real.bin"],
            Artifact::Drvtest => vec!["joc-drvtest-app/app.bin"],
            Artifact::Sdk => vec!["joc-rtos-app-sdk/app.bin"],
        };
        assert(strs(r@) =~= self.places());
        r
    }

    /// The places below the root of the older layout, best first: there the release build of
    /// the kernel is the newer one.
    pub open spec fn old_places(self) -> Seq<Seq<char>> {
        match self {
            Artifact::JocBase => seq![
                "joc-base/build_rel/stm32f407_minimal.elf"@,
                "joc-base/build_rel/jOS.elf"@,
                "joc-base/build_hil/stm32f407_minimal.elf"@,
                "joc-base/build_hil/jOS.elf"@,
            ],
            Artifact::FlyctrlReal => seq!["/tmp/flyctrl_real.bin"@],
            _ => self.places(),
        }
    }

    /// The places below the root of the older layout, best first.
    pub fn legacy(self) -> (r: Vec<&'static str>)
        ensures
            strs(r@) == self.old_places(),
    {
        match self {
            Artifact::JocBase => {
                let r: Vec<&'static str> = vec![
                    "joc-base/build_rel/stm32f407_minimal.elf",
                    "joc-base/build_rel/jOS.elf",
                    "joc-base/build_hil/stm32f407_minimal.elf",
                    "joc-base/build_hil/jOS.elf",
                ];
                assert(strs(r@) =~= self.old_places());
                r
            },
            Artifact::FlyctrlReal => {
                let r: Vec<&'static str> = vec!["/tmp/flyctrl_real.bin"];
                assert(strs(r@) =~= self.old_places());
                r
            },
            _ => self.canonical(),
        }
    }
}

/// The path `rel` as seen from `root`: an absolute path stays as it is.
pub open spec fn joined(root: Seq<char>, rel: Seq<char>) -> Seq<char> {
    if rel.len() > 0 && rel[0] == '/' {
        rel
    } else if root.len() == 0 || root.last() == '/' {
        root + rel
    } else {
        root.push('/') + rel
    }
}

/// The path `rel` as seen from `root`.
pub fn join(root: &str, rel: &str) -> (r: String)
    ensures
        r@ == joined(root@, rel@),
{
    let mut a = text::chars_of(root);
    let mut b = text::chars_of(rel);
    if b.len() > 0 && b[0] == '/' {
        return text::text_of(b.as_slice());
    }
    if a.len() > 0 && a[a.len() - 1] != '/' {
        a.push('/');
    }
    a.append(&mut b);
    text::text_of(a.as_slice())
}

/// All the places as seen from a root.
pub open spec fn below(root: Seq<char>, rels: Seq<Seq<char>>) -> Seq<Seq<char>> {
    Seq::new(rels.len(), |i: int| joined(root, rels[i]))
}

/// The number of the first place that is there.
pub open spec fn first_present(paths: Seq<Seq<char>>, present: Seq<Seq<char>>, i: int) -> Option<int>
    decreases paths.len() - i,
{
    if i >= paths.len() {
        None
    } else if present.contains(paths[i]) {
        Some(i)
    } else {
        first_present(paths, present, i + 1)
    }
}

/// Where the image is: where the environment says; else the first place that is there, the
/// common root before the older one; else the first place below the common root.
pub open spec fn resolved(
    env: Option<Seq<char>>,
    canonical: Seq<Seq<char>>,
    legacy: Seq<Seq<char>>,
    present: Seq<Seq<char>>,
) -> Seq<char> {
    match env {
        Some(v) => v,
        None => match first_present(canonical, present, 0) {
            Some(i) => canonical[i],
            None => match first_present(legacy, present, 0) {
                Some(i) => legacy[i],
                None => canonical[0],
            },
        },
    }
}

/// A text in the model, if there is one.
pub open spec fn opt(s: Option<&str>) -> Option<Seq<char>> {
    match s {
        Some(s) => Some(s@),
        None => None,
    }
}

/// Is the file among those that are there?
pub fn is_present(present: &Vec<String>, path: &str) -> (r: bool)
    ensures
        r == names(present@).contains(path@),
{
    let p = text::chars_of(path);
    let mut i: usize = 0;
    while i < present.len()
        invariant
            i <= present@.len(),
            p@ == path@,
            forall|k: int| 0 <= k < i ==> (#[trigger] names(present@)[k]) != path@,
        decreases present@.len() - i,
    {
        if text::is_text(p.as_slice(), present[i].as_str()) {
            assert(names(present@)[i as int] == path@);
            return true;
        }
        assert(names(present@)[i as int] == present@[i as int]@);
        i = i + 1;
    }
    false
}

/// The first place that is there, as seen from a root.
fn search(root: &str, rels: &Vec<&'static str>, present: &Vec<String>) -> (r: Option<String>)
    ensures
        match r {
            Some(p) => first_present(below(root@, strs(rels@)), names(present@), 0) is Some && p@
                == below(root@, strs(rels@))[first_present(
                below(root@, strs(rels@)),
                names(present@),
                0,
            )->0],
            None => first_present(below(root@, strs(rels@)), names(present@), 0) is None,
        },
{
    let mut i: usize = 0;
    let ghost paths = below(root@, strs(rels@));
    while i < rels.len()
        invariant
            i <= rels@.len(),
            paths == below(root@, strs(rels@)),
            first_present(paths, names(present@), 0) == first_present(
                paths,
                names(present@),
                i as int,
            ),
        decreases rels@.len() - i,
    {
        let p = join(root, rels[i]);
        assert(paths[i as int] == p@);
        if is_present(present, p.as_str()) {
            return Some(p);
        }
        i = i + 1;
    }
    None
}

/// Where an image is, given what the environment says and which files are there.
pub fn resolve_in(
    canonical_root: &str,
    old_root: &str,
    env: Option<&str>,
    canonical: &Vec<&'static str>,
    legacy: &Vec<&'static str>,
    present: &Vec<String>,
) -> (r: String)
    requires
        canonical@.len() > 0,
    ensures
        r@ == resolved(
            opt(env),
            below(canonical_root@, strs(canonical@)),
            below(old_root@, strs(legacy@)),
            names(present@),
        ),
{
    match env {
        Some(v) => {
            let cs = text::chars_of(v);
            text::text_of(cs.as_slice())
        },
        None => match search(canonical_root, canonical, present) {
            Some(p) => p,
            None => match search(old_root, legacy, present) {
                Some(p) => p,
                None => join(canonical_root, canonical[0]),
            },
        },
    }
}

impl Artifact {
    /// Where the image is.
    pub open spec fn place(
        self,
        root: Seq<char>,
        env: Option<Seq<char>>,
        present: Seq<Seq<char>>,
    ) -> Seq<char> {
        resolved(
            env,
            below(root, self.places()),
            below(legacy_root(), self.old_places()),
            present,
        )
    }

    /// Where the image is, given the common root, the value of the environment variable, and
    /// the files that are there.
    pub fn resolve(self, root: &str, env: Option<&str>, present: &Vec<String>) -> (r: String)
        ensures
            r@ == self.place(root@, opt(env), names(present@)),
    {
        let canonical = self.canonical();
        proof {
            assert(strs(canonical@).len() == self.places().len());
        }
        resolve_in(root, "/home/ubuntu/work", env, &canonical, &self.legacy(), present)
    }

    /// The files whose presence matters, in the order in which they are considered.
    pub fn candidates(self, root: &str) -> (r: Vec<String>)
        ensures
            names(r@) == below(root@, self.places()) + below(legacy_root(), self.old_places()),
    {
        let mut r: Vec<String> = Vec::new();
        let a = self.canonical();
        let b = self.legacy();
        let mut i: usize = 0;
        let ghost xs = below(root@, strs(a@));
        let ghost ys = below(legacy_root(), strs(b@));
        assert(names(r@) =~= xs.take(0));
        while i < a.len()
            invariant
                i <= a@.len(),
                xs == below(root@, strs(a@)),
                names(r@) == xs.take(i as int),
            decreases a@.len() - i,
        {
            let p = join(root, a[i]);
            let ghost r0 = r@;
            r.push(p);
            assert(names(r@) =~= names(r0).push(p@));
            assert(xs.take(i + 1) =~= xs.take(i as int).push(xs[i as int]));
            i = i + 1;
        }
        let mut j: usize = 0;
        assert(xs + ys.take(0) =~= xs.take(i as int));
        while j < b.len()
            invariant
                j <= b@.len(),
                ys == below(legacy_root(), strs(b@)),
                names(r@) == xs + ys.take(j as int),
            decreases b@.len() - j,
        {
            let p = join("/home/ubuntu/work", b[j]);
            let ghost r0 = r@;
            r.push(p);
            assert(names(r@) =~= names(r0).push(p@));
            assert(xs + ys.take(j + 1) =~= (xs + ys.take(j as int)).push(ys[j as int]));
            j = j + 1;
        }
        assert(xs + ys.take(j as int) =~= xs + ys);
        r
    }
}

/// The kernel.
pub fn joc_base_elf(root: &str, env: Option<&str>, present: &Vec<String>) -> (r: String)
    ensures
        r@ == Artifact::JocBase.place(root@, opt(env), names(present@)),
{
    Artifact::JocBase.resolve(root, env, present)
}

/// The flight controller.
pub fn flyctrl_app_bin(root: &str, env: Option<&str>, present: &Vec<String>) -> (r: String)
    ensures
        r@ == Artifact::Flyctrl.place(root@, opt(env), names(present@)),
{
    Artifact::Flyctrl.resolve(root, env, present)
}

/// The flight controller that reads real sensors: another image than [`flyctrl_app_bin`].
pub fn flyctrl_real_app_bin(root: &str, env: Option<&str>, present: &Vec<String>) -> (r: String)
    ensures
        r@ == Artifact::FlyctrlReal.place(root@, opt(env), names(present@)),
{
    Artifact::FlyctrlReal.resolve(root, env, present)
}

/// The driver test.
pub fn drvtest_app_bin(root: &str, env: Option<&str>, present: &Vec<String>) -> (r: String)
    ensures
        r@ == Artifact::Drvtest.place(root@, opt(env), names(present@)),
{
    Artifact::Drvtest.resolve(root, env, present)
}

/// The example application.
pub fn sdk_app_bin(root: &str, env: Option<&str>, present: &Vec<String>) -> (r: String)
    ensures
        r@ == Artifact::Sdk.place(root@, opt(env), names(present@)),
{
    Artifact::Sdk.resolve(root, env, present)
}

/// Where the components of a path begin: behind the root, or behind a leading `.`.
pub open spec fn body_start(s: Seq<char>) -> int {
    if s.len() > 0 && s[0] == '/' {
        1
    } else if s.len() > 0 && s[0] == '.' && (s.len() == 1 || s[1] == '/') {
        1
    } else {
        0
    }
}

/// Where the last `/` among the first `n` characters from `start` on stands.
pub open spec fn last_slash(s: Seq<char>, start: int, n: int) -> Option<int>
    decreases n,
{
    if n <= start || n <= 0 {
        None
    } else if s[n - 1] == '/' {
        Some(n - 1)
    } else {
        last_slash(s, start, n - 1)
    }
}

/// Where the last component ends off: what stands before it, without the `/` between.
pub open spec fn without_last(s: Seq<char>, start: int) -> Seq<char> {
    match last_slash(s, start, s.len() as int) {
        Some(p) => s.take(p),
        None => s.take(start),
    }
}

/// The last component.
pub open spec fn last_part(s: Seq<char>, start: int) -> Seq<char> {
    match last_slash(s, start, s.len() as int) {
        Some(p) => s.skip(p + 1),
        None => s.skip(start),
    }
}

pub proof fn lemma_last_slash(s: Seq<char>, start: int, n: int)
    requires
        0 <= start,
        n <= s.len(),
    ensures
        match last_slash(s, start, n) {
            Some(p) => start <= p < n,
            None => true,
        },
    decreases n,
{
    if n > start && n > 0 && s[n - 1] != '/' {
        lemma_last_slash(s, start, n - 1);
    }
}

/// The path without the empty components and the `.` at its end.
pub open spec fn tidy(s: Seq<char>, start: int) -> Seq<char>
    decreases s.len(),
{
    if start < 0 || s.len() <= start {
        s
    } else if last_part(s, start).len() == 0 || last_part(s, start) == seq!['.'] {
        proof {
            lemma_last_slash(s, start, s.len() as int);
        }
        tidy(without_last(s, start), start)
    } else {
        s
    }
}

/// The directory that holds what the path names; `None` for the root and the empty path.
pub open spec fn parent_of(s: Seq<char>) -> Option<Seq<char>> {
    let start = body_start(s);
    let t = tidy(s, start);
    if t.len() > start {
        Some(tidy(without_last(t, start), start))
    } else if start == 1 && s[0] == '.' {
        Some(Seq::empty())
    } else {
        None
    }
}

/// Where the last `/` from `start` on stands.
fn find_last_slash(s: &[char], start: usize) -> (r: Option<usize>)
    requires
        start <= s@.len(),
    ensures
        match r {
            Some(p) => last_slash(s@, start as int, s@.len() as int) == Some(p as int) && start
                <= p < s@.len(),
            None => last_slash(s@, start as int, s@.len() as int) is None,
        },
{
    let mut n = s.len();
    while n > start
        invariant
            start <= n <= s@.len(),
            last_slash(s@, start as int, s@.len() as int) == last_slash(
                s@,
                start as int,
                n as int,
            ),
        decreases n,
    {
        if s[n - 1] == '/' {
            return Some(n - 1);
        }
        n = n - 1;
    }
    None
}

/// The length of the path without its last component.
fn cut_last(s: &[char], start: usize) -> (r: usize)
    requires
        start < s@.len(),
    ensures
        start <= r < s@.len(),
        s@.take(r as int) == without_last(s@, start as int),
{
    match find_last_slash(s, start) {
        Some(p) => p,
        None => start,
    }
}

/// Takes off the empty components and the `.` at the end.
fn tidied(s: &[char], start: usize) -> (r: &[char])
    requires
        start <= s@.len(),
    ensures
        r@ == tidy(s@, start as int),
        start <= r@.len() <= s@.len(),
{
    let mut n = s.len();
    assert(s@.take(n as int) =~= s@);
    while n > start
        invariant
            start <= n <= s@.len(),
            tidy(s@.take(n as int), start as int) == tidy(s@, start as int),
        decreases n,
    {
        let t = slice_subrange(s, 0, n);
        assert(t@ =~= s@.take(n as int));
        let from = match find_last_slash(t, start) {
            Some(p) => p + 1,
            None => start,
        };
        assert(last_part(t@, start as int) == t@.skip(from as int));
        if from == n || (from + 1 == n && t[from] == '.') {
            assert(from + 1 == n ==> t@.skip(from as int) =~= seq![t@[from as int]]);
            let m = cut_last(t, start);
            assert(t@.take(m as int) =~= s@.take(m as int));
            n = m;
        } else {
            proof {
                let part = t@.skip(from as int);
                assert(part.len() > 0);
                assert(part.len() == 1 ==> part[0] == t@[from as int]);
                assert(part != seq!['.']) by {
                    if part == seq!['.'] {
                        assert(part.len() == 1);
                        assert(part[0] == '.');
                    }
                }
            }
            return t;
        }
    }
    let t = slice_subrange(s, 0, n);
    assert(t@ =~= s@.take(n as int));
    t
}

/// The directory that holds what the path names.
pub fn parent(path: &str) -> (r: Option<String>)
    ensures
        match r {
            Some(p) => parent_of(path@) == Some(p@),
            None => parent_of(path@) is None,
        },
{
    let s = text::chars_of(path);
    let n = s.len();
    let dot = n > 0 && s[0] == '.' && (n == 1 || s[1] == '/');
    let start: usize = if (n > 0 && s[0] == '/') || dot {
        1
    } else {
        0
    };
    let t = tidied(s.as_slice(), start);
    if t.len() > start {
        let m = cut_last(t, start);
        let u = slice_subrange(t, 0, m);
        assert(u@ =~= t@.take(m as int));
        Some(text::text_of(tidied(u, start)))
    } else if dot {
        Some(String::new())
    } else {
        None
    }
}

/// The directory, or `.` where there is none.
pub open spec fn dir_of(s: Seq<char>) -> Seq<char> {
    match parent_of(s) {
        Some(p) => p,
        None => seq!['.'],
    }
}

fn dir(path: &str) -> (r: String)
    ensures
        r@ == dir_of(path@),
{
    match parent(path) {
        Some(p) => p,
        None => {
            let v: Vec<char> = vec!['.'];
            assert(v@ =~= seq!['.']);
            text::text_of(v.as_slice())
        },
    }
}

/// The common root: the directory that holds this project.
pub fn umbrella_root(manifest_dir: &str) -> (r: String)
    ensures
        r@ == dir_of(manifest_dir@),
{
    dir(manifest_dir)
}

/// The directory of the kernel, where its diagnostic output goes.
pub fn joc_base_build_dir(root: &str, env: Option<&str>, present: &Vec<String>) -> (r: String)
    ensures
        r@ == dir_of(Artifact::JocBase.place(root@, opt(env), names(present@))),
{
    let p = joc_base_elf(root, env, present);
    dir(p.as_str())
}

proof fn lemma_first_present(paths: Seq<Seq<char>>, present: Seq<Seq<char>>, i: int)
    requires
        0 <= i <= paths.len(),
    ensures
        match first_present(paths, present, i) {
            Some(k) => i <= k < paths.len() && present.contains(paths[k]) && forall|j: int|
                i <= j < k ==> !present.contains(#[trigger] paths[j]),
            None => forall|j: int| i <= j < paths.len() ==> !present.contains(#[trigger] paths[j]),
        },
    decreases paths.len() - i,
{
    if i < paths.len() && !present.contains(paths[i]) {
        lemma_first_present(paths, present, i + 1);
    }
}

/// The order of precedence. What the environment says is taken, whether it is there or not.
/// Else a place that is there is taken whenever there is one: below the common root if any of
/// those is there, however many of the older ones are. If none is there, it is the first place
/// below the common root.
pub proof fn law_precedence(
    env: Option<Seq<char>>,
    canonical: Seq<Seq<char>>,
    legacy: Seq<Seq<char>>,
    present: Seq<Seq<char>>,
)
    requires
        canonical.len() > 0,
    ensures
        env matches Some(v) ==> resolved(env, canonical, legacy, present) == v,
        env is None && (exists|i: int|
            0 <= i < canonical.len() && present.contains(#[trigger] canonical[i]))
            ==> canonical.contains(resolved(env, canonical, legacy, present)) && present.contains(
            resolved(env, canonical, legacy, present),
        ),
        env is None && (forall|i: int|
            0 <= i < canonical.len() ==> !present.contains(#[trigger] canonical[i])) && (exists|
            i: int,
        |
            0 <= i < legacy.len() && present.contains(#[trigger] legacy[i])) ==> legacy.contains(
            resolved(env, canonical, legacy, present),
        ) && present.contains(resolved(env, canonical, legacy, present)),
        env is None && (forall|i: int|
            0 <= i < canonical.len() ==> !present.contains(#[trigger] canonical[i])) && (forall|
            i: int,
        |
            0 <= i < legacy.len() ==> !present.contains(#[trigger] legacy[i])) ==> resolved(
            env,
            canonical,
            legacy,
            present,
        ) == canonical[0],
{
    lemma_first_present(canonical, present, 0);
    lemma_first_present(legacy, present, 0);
}

/// The first place that is there wins: below the common root in their order, and only if none of
/// those is there, below the older root in theirs.
pub proof fn law_first_place_wins(
    canonical: Seq<Seq<char>>,
    legacy: Seq<Seq<char>>,
    present: Seq<Seq<char>>,
    i: int,
)
    ensures
        0 <= i < canonical.len() && present.contains(canonical[i]) && (forall|j: int|
            0 <= j < i ==> !present.contains(#[trigger] canonical[j])) ==> resolved(
            None,
            canonical,
            legacy,
            present,
        ) == canonical[i],
        0 <= i < legacy.len() && present.contains(legacy[i]) && (forall|j: int|
            0 <= j < i ==> !present.contains(#[trigger] legacy[j])) && (forall|j: int|
            0 <= j < canonical.len() ==> !present.contains(#[trigger] canonical[j])) ==> resolved(
            None,
            canonical,
            legacy,
            present,
        ) == legacy[i],
{
    lemma_first_present(canonical, present, 0);
    lemma_first_present(legacy, present, 0);
}

/// Which variable names an image, and where it stands. The hardware build of the kernel comes
/// first below the common root, the release build first below the older one.
pub proof fn law_images()
    ensures
        Artifact::JocBase.key() == "JOC_BASE_ELF"@,
        Artifact::Flyctrl.key() == "JOC_APP_FLYCTRL"@,
        Artifact::FlyctrlReal.key() == "JOC_APP_FLYCTRL_REAL"@,
        Artifact::Drvtest.key() == "JOC_APP_DRVTEST"@,
        Artifact::Sdk.key() == "JOC_APP_SDK"@,
        Artifact::JocBase.places() == seq![
            "joc-base/build_hil/stm32f407_minimal.elf"@,
            "joc-base/build_hil/jOS.elf"@,
            "joc-base/build_rel/stm32f407_minimal.elf"@,
            "joc-base/build_rel/jOS.elf"@,
        ],
        Artifact::JocBase.old_places() == seq![
            "joc-base/build_rel/stm32f407_minimal.elf"@,
            "joc-base/build_rel/jOS.elf"@,
            "joc-base/build_hil/stm32f407_minimal.elf"@,
            "joc-base/build_hil/jOS.elf"@,
        ],
        Artifact::Flyctrl.places() == seq!["flyctrl/app.bin"@],
        Artifact::Flyctrl.old_places() == seq!["flyctrl/app.bin"@],
        Artifact::FlyctrlReal.places() == seq![
            "/tmp/flyctrl_real.bin"@,
            "flyctrl/app_real.bin"@,
        ],
        Artifact::FlyctrlReal.old_places() == seq!["/tmp/flyctrl_real.bin"@],
        Artifact::Drvtest.places() == seq!["joc-drvtest-app/app.bin"@],
        Artifact::Drvtest.old_places() == seq!["joc-drvtest-app/app.bin"@],
        Artifact::Sdk.places() == seq!["joc-rtos-app-sdk/app.bin"@],
        Artifact::Sdk.old_places() == seq!["joc-rtos-app-sdk/app.bin"@],
        legacy_root() == "/home/ubuntu/work"@,
{
}

proof fn lemma_slash_before(s: Seq<char>, start: int, p: int, n: int)
    requires
        0 <= start <= p < n <= s.len(),
        s[p] == '/',
        forall|i: int| p < i < n ==> s[i] != '/',
    ensures
        last_slash(s, start, n) == Some(p),
    decreases n,
{
    if n > p + 1 {
        lemma_slash_before(s, start, p, n - 1);
    }
}

proof fn lemma_no_slash(s: Seq<char>, start: int, n: int)
    requires
        0 <= start <= n <= s.len(),
        forall|i: int| start <= i < n ==> s[i] != '/',
    ensures
        last_slash(s, start, n) is None,
    decreases n,
{
    if n > start && n > 0 {
        lemma_no_slash(s, start, n - 1);
    }
}

/// A path that ends with a name is tidy.
proof fn lemma_is_tidy(s: Seq<char>, start: int)
    requires
        0 <= start < s.len(),
        s.last() != '/',
        s.last() != '.' || (s.len() >= start + 2 && s[s.len() - 2] != '/'),
    ensures
        tidy(s, start) == s,
{
    let n = s.len() as int;
    lemma_last_slash(s, start, n);
    if let Some(p) = last_slash(s, start, n) {
        assert(p < n - 1) by {
            if p == n - 1 {
                lemma_slash_found(s, start, n);
            }
        }
        let t = s.skip(p + 1);
        assert(t.last() == s.last());
        if t == seq!['.'] {
            assert(t.len() == 1);
            lemma_slash_found(s, start, n);
        }
    } else {
        let t = s.skip(start);
        assert(t.last() == s.last());
        if t == seq!['.'] {
            assert(t.len() == 1);
        }
    }
}

proof fn lemma_slash_found(s: Seq<char>, start: int, n: int)
    requires
        0 <= start,
        n <= s.len(),
    ensures
        last_slash(s, start, n) matches Some(p) ==> 0 <= p < n && s[p] == '/',
    decreases n,
{
    if n > start && n > 0 && s[n - 1] != '/' {
        lemma_slash_found(s, start, n - 1);
    }
}

/// The directory of a file in it is that directory, with or without a slash behind the name.
/// Neither the root nor the empty path has one.
pub proof fn law_parent(dir: Seq<char>, name: Seq<char>)
    requires
        dir.len() > 1,
        dir[0] == '/',
        dir.last() != '/',
        dir.last() != '.' || dir[dir.len() - 2] != '/',
        name.len() > 0,
        !name.contains('/'),
        name != seq!['.'],
    ensures
        parent_of(dir + seq!['/'] + name) == Some(dir),
        parent_of(seq!['/'] + name) == Some(seq!['/']),
        parent_of(seq!['/']) is None,
        parent_of(Seq::empty()) is None,
        dir_of(dir + seq!['/'] + name) == dir,
{
    let s = dir + seq!['/'] + name;
    let n = s.len() as int;
    let p = dir.len() as int;
    assert forall|i: int| p < i < n implies s[i] != '/' by {
        assert(s[i] == name[i - p - 1]);
        assert(name.contains(name[i - p - 1]));
    }
    lemma_slash_before(s, 1, p, n);
    assert(s.skip(p + 1) =~= name);
    assert(tidy(s, 1) == s);
    assert(s.take(p) =~= dir);
    lemma_is_tidy(dir, 1);
    let t = seq!['/'] + name;
    assert forall|i: int| 1 <= i < t.len() implies t[i] != '/' by {
        assert(t[i] == name[i - 1]);
        assert(name.contains(name[i - 1]));
    }
    lemma_no_slash(t, 1, t.len() as int);
    assert(t.skip(1) =~= name);
    assert(t.take(1) =~= seq!['/']);
}

/// A path is seen from a root: with a slash between the two, unless the root ends with one. An
/// absolute path stays as it is.
pub proof fn law_joined(root: Seq<char>, rel: Seq<char>)
    requires
        root.len() > 0,
    ensures
        rel.len() > 0 && rel[0] == '/' ==> joined(root, rel) == rel,
        !(rel.len() > 0 && rel[0] == '/') && root.last() != '/' ==> joined(root, rel) == root
            + seq!['/'] + rel,
        !(rel.len() > 0 && rel[0] == '/') && root.last() == '/' ==> joined(root, rel) == root + rel,
{
    assert(root.push('/') =~= root + seq!['/']);
}

} // verus!
