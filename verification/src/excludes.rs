//! Exclusion patterns handed to tar: per-project build artifacts found
//! while walking the source tree, the globs of per-directory ignore files,
//! and a common list excluded from every snapshot.

use vstd::prelude::*;

use vstd::utf8::encode_utf8;

use crate::paths::{
    components, ends_with, ends_with_parts, file_name, file_name_of, join_components, join_parts,
    opt_part_views, part_views, path_components, same_bytes, same_parts, strip_parts,
    strip_prefix, Component, PathPart,
};
use crate::text::{
    chars_of, copy_bytes, decimal, decimal_string, has_prefix, is_whitespace,
    lemma_trim_drops_trailing_whitespace, lemma_trim_end_ends_in_text,
    lemma_trim_start_char_keeps_last, lemma_trim_start_char_leaves_no_lead, starts_with, trim, trim_range, trim_start, trim_start_char,
    trim_start_char_range, utf8_bytes,
};

verus! {

/// Marker file: a directory containing it is left out of snapshots
/// entirely.
pub const IGNORE_MARKER: &'static str = ".worksnap-ignore-dir";

/// Per-directory ignore file: every non-blank, non-`#` line is a tar
/// exclusion glob, scoped to the directory the file lives in. The glob
/// flavor is exactly tar's `--exclude` default (wildcards on, `*` matches
/// `/` too); lines are passed through verbatim apart from the scoping
/// prefix.
pub const IGNORE_FILE: &'static str = ".worksnap-ignore";

/// A `target` directory is a Cargo build artifact only when this manifest
/// sits next to it.
pub const CARGO_MANIFEST: &'static str = "Cargo.toml";

pub const CARGO_TARGET_DIR: &'static str = "target";

/// A `vendor` directory holds Composer dependencies only when this
/// manifest sits next to it.
pub const COMPOSER_MANIFEST: &'static str = "composer.json";

pub const COMPOSER_VENDOR_DIR: &'static str = "vendor";

/// Anchor (Solana) macro-expansion output: a build artifact like
/// `target/`.
pub const ANCHOR_EXPAND_TARGET: &'static str = ".anchor/expanded-macros/expand-target";

/// The views of a list of byte strings.
pub open spec fn byte_views(list: Seq<Vec<u8>>) -> Seq<Seq<u8>> {
    list.map_values(|b: Vec<u8>| b@)
}

/// The UTF-8 bytes of each of `texts`.
pub open spec fn utf8_all(texts: Seq<Seq<char>>) -> Seq<Seq<u8>> {
    texts.map_values(|t: Seq<char>| encode_utf8(t))
}

/// The views of a list of strings.
pub open spec fn string_views(list: Seq<String>) -> Seq<Seq<char>> {
    list.map_values(|s: String| s@)
}

/// Index of the first `\n` of `s`, or its length when there is none.
pub open spec fn line_end(s: Seq<char>) -> nat
    decreases s.len(),
{
    if s.len() == 0 || s[0] == '\n' {
        0
    } else {
        1 + line_end(s.drop_first())
    }
}

/// Where the globs of an ignore file in `rel_dir` are anchored: `./` at
/// the source root, `./<rel_dir>/` elsewhere.
pub open spec fn ignore_anchor(rel_dir: Seq<char>) -> Seq<char> {
    if rel_dir.len() == 0 {
        "./"@
    } else {
        "./"@ + rel_dir + "/"@
    }
}

/// The exclusion glob one line of an ignore file gives, anchored at
/// `rel_dir`: nothing for a blank line or a `#` comment; otherwise the
/// trimmed line without leading `/`, after `./<rel_dir>/` (or `./` at the
/// source root).
pub open spec fn line_pattern(rel_dir: Seq<char>, line: Seq<char>) -> Option<Seq<char>> {
    let t = trim(line);
    if t.len() == 0 || t[0] == '#' {
        None
    } else {
        Some(ignore_anchor(rel_dir) + trim_start_char(t, '/'))
    }
}

/// The globs of an ignore file's content, line by line. Lines end at `\n`;
/// a `\r` before it is whitespace and is trimmed with the rest.
pub open spec fn scoped_pattern_list(rel_dir: Seq<char>, content: Seq<char>) -> Seq<Seq<char>>
    decreases content.len(),
{
    let end = line_end(content);
    let here = match line_pattern(rel_dir, content.take(end as int)) {
        Some(p) => seq![p],
        None => Seq::<Seq<char>>::empty(),
    };
    if end < content.len() {
        here + scoped_pattern_list(rel_dir, content.skip(end + 1 as int))
    } else {
        here
    }
}

proof fn lemma_line_end_bound(s: Seq<char>)
    ensures
        line_end(s) <= s.len(),
        line_end(s) < s.len() ==> s[line_end(s) as int] == '\n',
        forall|i: int| 0 <= i < line_end(s) ==> s[i] != '\n',
    decreases s.len(),
{
    if s.len() > 0 && s[0] != '\n' {
        lemma_line_end_bound(s.drop_first());
        assert forall|i: int| 0 <= i < line_end(s) implies s[i] != '\n' by {
            if i > 0 {
                assert(s[i] == s.drop_first()[i - 1]);
            }
        }
    }
}

proof fn lemma_line_end_from(s: Seq<char>, e: int)
    requires
        0 <= e <= s.len(),
        e < s.len() ==> s[e] == '\n',
        forall|i: int| 0 <= i < e ==> s[i] != '\n',
    ensures
        line_end(s) == e,
    decreases s.len(),
{
    if s.len() > 0 && s[0] != '\n' {
        lemma_line_end_from(s.drop_first(), e - 1);
    }
}

/// Turns the lines of an ignore file into tar exclusion globs anchored at
/// `rel_dir` (the file's directory relative to the source root, `""` for
/// the root itself).
pub fn scoped_patterns(rel_dir: &str, content: &str) -> (patterns: Vec<String>)
    ensures
        string_views(patterns@) == scoped_pattern_list(rel_dir@, content@),
{
    proof {
        reveal_strlit("./");
        reveal_strlit("/");
    }
    let chars = chars_of(content);
    let len = chars.len();
    let rel_is_root = rel_dir.unicode_len() == 0;
    let mut patterns: Vec<String> = Vec::new();
    let mut pos: usize = 0;
    assert(content@.skip(0) =~= content@);
    while pos < len
        invariant
            len == chars@.len(),
            chars@ == content@,
            pos <= len,
            rel_is_root == (rel_dir@.len() == 0),
            scoped_pattern_list(rel_dir@, content@) =~= string_views(patterns@)
                + scoped_pattern_list(rel_dir@, content@.skip(pos as int)),
        decreases len - pos,
    {
        let ghost rest = content@.skip(pos as int);
        let mut end = pos;
        while end < len && chars[end] != '\n'
            invariant
                len == chars@.len(),
                pos <= end <= len,
                forall|i: int| pos <= i < end ==> chars@[i] != '\n',
            decreases len - end,
        {
            end += 1;
        }
        proof {
            lemma_line_end_from(rest, end - pos);
            assert(rest.take(end - pos) =~= chars@.subrange(pos as int, end as int));
        }
        let (t_start, t_end) = trim_range(&chars, pos, end);
        if t_start < t_end && chars[t_start] != '#' {
            let g_start = trim_start_char_range(&chars, t_start, t_end, '/');
            let glob = content.substring_char(g_start, t_end);
            let mut pattern = String::from_str("./");
            if !rel_is_root {
                pattern.append(rel_dir);
                pattern.append("/");
            }
            pattern.append(glob);
            let ghost before = string_views(patterns@);
            patterns.push(pattern);
            assert(string_views(patterns@) =~= before.push(pattern@));
        }
        if end < len {
            assert(rest.skip(end - pos + 1) =~= content@.skip(end + 1));
            pos = end + 1;
        } else {
            assert(content@.skip(len as int) =~= Seq::<char>::empty());
            pos = len;
        }
    }
    patterns
}

/// The globs of an ignore file stay inside the directory the file lives
/// in: each one starts with that directory's anchor.
pub proof fn lemma_ignore_globs_stay_in_their_dir(rel_dir: Seq<char>, content: Seq<char>)
    ensures
        forall|i: int|
            0 <= i < scoped_pattern_list(rel_dir, content).len() ==> has_prefix(
                #[trigger] scoped_pattern_list(rel_dir, content)[i],
                ignore_anchor(rel_dir),
            ),
    decreases content.len(),
{
    let end = line_end(content);
    lemma_line_end_bound(content);
    let list = scoped_pattern_list(rel_dir, content);
    let here = match line_pattern(rel_dir, content.take(end as int)) {
        Some(p) => seq![p],
        None => Seq::<Seq<char>>::empty(),
    };
    if let Some(p) = line_pattern(rel_dir, content.take(end as int)) {
        let glob = trim_start_char(trim(content.take(end as int)), '/');
        assert(p =~= ignore_anchor(rel_dir) + glob);
        assert(p.take(ignore_anchor(rel_dir).len() as int) =~= ignore_anchor(rel_dir));
    }
    if end < content.len() {
        let tail = content.skip(end + 1 as int);
        lemma_ignore_globs_stay_in_their_dir(rel_dir, tail);
        assert forall|i: int| 0 <= i < list.len() implies has_prefix(
            #[trigger] list[i],
            ignore_anchor(rel_dir),
        ) by {
            if i >= here.len() {
                assert(list[i] == scoped_pattern_list(rel_dir, tail)[i - here.len()]);
            }
        }
    }
}

/// Patterns excluded from every snapshot: `./`-anchored entries are
/// relative to the source root, bare names match a directory anywhere in
/// the tree, `*` entries are tar file-name globs. The GNU/KDE trash
/// directory of a mounted file system is named after the owner's uid.
pub open spec fn common_pattern_list(uid: nat) -> Seq<Seq<char>> {
    seq![
        "node_modules"@,
        ".venv"@,
        ".pnpm-store"@,
        "test-ledger"@,
        "./go/pkg"@,
        "./.cache/uv"@,
        "dhat.out.*"@,
        "heaptrack.*"@,
        ".Trash-"@ + decimal(uid),
    ]
}

/// `rustix::process::getuid().as_raw()`: the real user id of the calling
/// process. It depends on the process, so nothing is stated of it.
#[verifier::external_body]
fn current_uid() -> u32 {
    rustix::process::getuid().as_raw()
}

/// The common patterns for the user `uid`.
pub fn common_patterns_for_uid(uid: u32) -> (patterns: Vec<String>)
    ensures
        string_views(patterns@) == common_pattern_list(uid as nat),
{
    let mut patterns: Vec<String> = Vec::new();
    patterns.push(String::from_str("node_modules"));
    patterns.push(String::from_str(".venv"));
    patterns.push(String::from_str(".pnpm-store"));
    patterns.push(String::from_str("test-ledger"));
    patterns.push(String::from_str("./go/pkg"));
    patterns.push(String::from_str("./.cache/uv"));
    patterns.push(String::from_str("dhat.out.*"));
    patterns.push(String::from_str("heaptrack.*"));
    let mut trash = String::from_str(".Trash-");
    trash.append(decimal_string(uid as u64).as_str());
    patterns.push(trash);
    assert(string_views(patterns@) =~= common_pattern_list(uid as nat));
    patterns
}

/// The common patterns for the user running the process.
pub fn common_patterns() -> (patterns: Vec<String>)
    ensures
        exists|uid: u32| string_views(patterns@) == common_pattern_list(uid as nat),
{
    let uid = current_uid();
    common_patterns_for_uid(uid)
}

/// A common pattern covers the directory at `parts` (whose components
/// below the source root are `rel`, when it lies under it): a
/// `./`-anchored pattern when it names the same relative path, component
/// by component, a bare name without `*` when it is the directory's name.
pub open spec fn covered_by(
    rel: Option<Seq<PathPart>>,
    parts: Seq<PathPart>,
    pattern: Seq<char>,
) -> bool {
    if has_prefix(pattern, "./"@) {
        match rel {
            Some(r) => r == path_components(encode_utf8(pattern.skip(2))),
            None => false,
        }
    } else {
        !pattern.contains('*') && file_name_of(parts) == Some(encode_utf8(pattern))
    }
}

/// Some common pattern covers the directory.
pub open spec fn covered_by_any(
    rel: Option<Seq<PathPart>>,
    parts: Seq<PathPart>,
    patterns: Seq<Seq<char>>,
) -> bool {
    exists|i: int| 0 <= i < patterns.len() && covered_by(rel, parts, #[trigger] patterns[i])
}

/// Whether `text` holds the character `c`.
fn has_char(text: &str, c: char) -> (yes: bool)
    ensures
        yes == text@.contains(c),
{
    let chars = chars_of(text);
    let mut i: usize = 0;
    while i < chars.len()
        invariant
            chars@ == text@,
            i <= chars@.len(),
            forall|j: int| 0 <= j < i ==> chars@[j] != c,
        decreases chars@.len() - i,
    {
        if chars[i] == c {
            assert(text@[i as int] == c);
            return true;
        }
        i += 1;
    }
    false
}

/// Whether a single common pattern covers the directory.
fn is_covered_by(rel: &Option<Vec<Component>>, parts: &Vec<Component>, pattern: &str) -> (yes: bool)
    ensures
        yes == covered_by(opt_part_views(*rel), part_views(parts@), pattern@),
{
    if starts_with(pattern, "./") {
        match rel {
            Some(r) => {
                let len = pattern.unicode_len();
                proof {
                    reveal_strlit("./");
                }
                let tail = pattern.substring_char(2, len);
                let tail_parts = components(utf8_bytes(tail).as_slice());
                same_parts(r, &tail_parts)
            },
            None => false,
        }
    } else if has_char(pattern, '*') {
        false
    } else {
        match file_name(parts) {
            Some(name) => same_bytes(name.as_slice(), utf8_bytes(pattern).as_slice()),
            None => false,
        }
    }
}

/// Whether some common pattern covers the directory at `parts`, whose
/// components below the source root are `rel`.
pub fn is_covered_by_common(
    rel: &Option<Vec<Component>>,
    parts: &Vec<Component>,
    patterns: &Vec<String>,
) -> (yes: bool)
    ensures
        yes == covered_by_any(opt_part_views(*rel), part_views(parts@), string_views(patterns@)),
{
    let ghost views = string_views(patterns@);
    let mut i: usize = 0;
    while i < patterns.len()
        invariant
            i <= patterns@.len(),
            views == string_views(patterns@),
            forall|j: int|
                0 <= j < i ==> !covered_by(opt_part_views(*rel), part_views(parts@), #[trigger] views[j]),
        decreases patterns@.len() - i,
    {
        if is_covered_by(rel, parts, patterns[i].as_str()) {
            assert(covered_by(opt_part_views(*rel), part_views(parts@), views[i as int]));
            return true;
        }
        i += 1;
    }
    false
}

/// A project directory left out of snapshots: one holding the ignore
/// marker, Anchor's macro-expansion output, a Cargo `target` directory
/// beside `Cargo.toml`, or a Composer `vendor` directory beside
/// `composer.json`.
pub open spec fn is_project_exclusion(
    parts: Seq<PathPart>,
    has_marker: bool,
    cargo_manifest_beside: bool,
    composer_manifest_beside: bool,
) -> bool {
    ||| has_marker
    ||| ends_with_parts(parts, path_components(encode_utf8(ANCHOR_EXPAND_TARGET@)))
    ||| match file_name_of(parts) {
        Some(name) => {
            ||| name == encode_utf8(CARGO_TARGET_DIR@) && cargo_manifest_beside
            ||| name == encode_utf8(COMPOSER_VENDOR_DIR@) && composer_manifest_beside
        },
        None => false,
    }
}

/// What the walk of the source tree has found out about one directory.
pub struct DirFacts {
    /// Depth below the source root, which is at depth 0.
    pub depth: usize,
    /// The directory's path, as walked.
    pub path: Vec<u8>,
    /// The path relative to the source root as text, when the walk could
    /// express it so; it is used only where it spells the components that
    /// the directory's path has below the source root.
    pub rel_text: Option<String>,
    /// The content of the directory's ignore file, when it has a readable
    /// one.
    pub ignore_file: Option<String>,
    /// The directory holds the ignore marker file.
    pub has_ignore_marker: bool,
    /// `Cargo.toml` is a file in the parent directory.
    pub cargo_manifest_beside: bool,
    /// `composer.json` is a file in the parent directory.
    pub composer_manifest_beside: bool,
}

/// The outcome of visiting a directory.
pub struct Visit {
    /// Whether the walk goes on into the directory.
    pub descend: bool,
    /// The directory's ignore file was skipped: its directory cannot be
    /// expressed as text relative to the source root.
    pub ignore_file_skipped: bool,
    /// The directory is excluded, but no pattern could be made for it: it
    /// does not lie under the source root.
    pub exclusion_skipped: bool,
}

/// The components of the directory's path below the source root, when it
/// lies under it.
pub open spec fn rel_parts(dir: DirFacts, source_dir: Seq<u8>) -> Option<Seq<PathPart>> {
    strip_parts(path_components(dir.path@), path_components(source_dir))
}

/// The directory's relative path as text, when the walk gave one that
/// spells its components below the source root.
pub open spec fn rel_dir_text(dir: DirFacts, source_dir: Seq<u8>) -> Option<Seq<char>> {
    match (dir.rel_text, rel_parts(dir, source_dir)) {
        (Some(text), Some(rel)) => if encode_utf8(text@) == join_parts(rel) {
            Some(text@)
        } else {
            None
        },
        _ => None,
    }
}

/// The globs a directory's ignore file contributes.
pub open spec fn ignore_file_patterns(dir: DirFacts, source_dir: Seq<u8>) -> Seq<Seq<u8>> {
    match (dir.ignore_file, rel_dir_text(dir, source_dir)) {
        (Some(content), Some(rel)) => utf8_all(scoped_pattern_list(rel, content@)),
        _ => Seq::empty(),
    }
}

/// The directory is excluded as a project build artifact; the source root
/// itself never is.
pub open spec fn dir_is_project_exclusion(dir: DirFacts) -> bool {
    dir.depth > 0 && is_project_exclusion(
        path_components(dir.path@),
        dir.has_ignore_marker,
        dir.cargo_manifest_beside,
        dir.composer_manifest_beside,
    )
}

/// The pattern excluding a project directory: `./` and its path below the
/// source root.
pub open spec fn exclusion_patterns(dir: DirFacts, source_dir: Seq<u8>) -> Seq<Seq<u8>> {
    match rel_parts(dir, source_dir) {
        Some(rel) => if dir_is_project_exclusion(dir) {
            seq![encode_utf8("./"@) + join_parts(rel)]
        } else {
            Seq::empty()
        },
        None => Seq::empty(),
    }
}

/// Whether the walk goes on into the directory: always at the source
/// root, elsewhere unless the directory is a project exclusion or some
/// common pattern covers it.
pub open spec fn visit_descends(dir: DirFacts, source_dir: Seq<u8>, common: Seq<Seq<char>>) -> bool {
    dir.depth == 0 || !(dir_is_project_exclusion(dir) || covered_by_any(
        rel_parts(dir, source_dir),
        path_components(dir.path@),
        common,
    ))
}

/// Visits a directory of the walk of the source tree rooted at
/// `source_dir`: collects its ignore file's globs, then decides whether it
/// is excluded as a project artifact (and adds its pattern), or covered by
/// a common pattern, in which case nothing inside can contribute and the
/// walk skips it.
pub fn visit_dir(
    patterns: &mut Vec<Vec<u8>>,
    source_dir: &[u8],
    dir: &DirFacts,
    common: &Vec<String>,
) -> (visit: Visit)
    ensures
        byte_views(final(patterns)@) == byte_views(old(patterns)@) + ignore_file_patterns(
            *dir,
            source_dir@,
        ) + exclusion_patterns(*dir, source_dir@),
        visit.ignore_file_skipped == (dir.ignore_file is Some && rel_dir_text(*dir, source_dir@) is None),
        visit.exclusion_skipped == (dir_is_project_exclusion(*dir) && rel_parts(*dir, source_dir@) is None),
        visit.descend == visit_descends(*dir, source_dir@, string_views(common@)),
{
    let ghost start = byte_views(patterns@);
    let parts = components(dir.path.as_slice());
    let base = components(source_dir);
    let rel = strip_prefix(&parts, &base);
    let rel_text = match (&dir.rel_text, &rel) {
        (Some(text), Some(r)) => {
            let spelled = join_components(r);
            if same_bytes(utf8_bytes(text.as_str()).as_slice(), spelled.as_slice()) {
                Some(text)
            } else {
                None
            }
        },
        _ => None,
    };
    assert(match rel_text {
        Some(t) => rel_dir_text(*dir, source_dir@) == Some(t@),
        None => rel_dir_text(*dir, source_dir@) is None,
    });
    let mut ignore_file_skipped = false;
    match (&dir.ignore_file, rel_text) {
        (Some(content), Some(rel_dir)) => {
            let scoped = scoped_patterns(rel_dir.as_str(), content.as_str());
            let ghost list = string_views(scoped@);
            let mut i: usize = 0;
            while i < scoped.len()
                invariant
                    i <= scoped@.len(),
                    list == string_views(scoped@),
                    byte_views(patterns@) =~= start + utf8_all(list.take(i as int)),
                decreases scoped@.len() - i,
            {
                let bytes = utf8_bytes(scoped[i].as_str());
                let ghost before = byte_views(patterns@);
                patterns.push(bytes);
                assert(byte_views(patterns@) =~= before.push(bytes@));
                assert(utf8_all(list.take(i + 1)) =~= utf8_all(list.take(i as int)).push(
                    encode_utf8(list[i as int]),
                ));
                i += 1;
            }
            assert(list.take(scoped@.len() as int) =~= list);
        },
        (Some(_), None) => {
            ignore_file_skipped = true;
        },
        _ => {},
    }
    assert(byte_views(patterns@) =~= start + ignore_file_patterns(*dir, source_dir@));
    if dir.depth == 0 {
        assert(exclusion_patterns(*dir, source_dir@) =~= Seq::<Seq<u8>>::empty());
        return Visit { descend: true, ignore_file_skipped, exclusion_skipped: false };
    }
    if is_excluded_project_dir(&parts, dir) {
        let mut exclusion_skipped = true;
        match &rel {
            Some(r) => {
                let mut pattern = utf8_bytes("./");
                let mut tail = join_components(r);
                pattern.append(&mut tail);
                let ghost before = byte_views(patterns@);
                patterns.push(pattern);
                assert(byte_views(patterns@) =~= before.push(pattern@));
                exclusion_skipped = false;
            },
            None => {},
        }
        Visit { descend: false, ignore_file_skipped, exclusion_skipped }
    } else {
        assert(exclusion_patterns(*dir, source_dir@) =~= Seq::<Seq<u8>>::empty());
        let covered = is_covered_by_common(&rel, &parts, common);
        Visit { descend: !covered, ignore_file_skipped, exclusion_skipped: false }
    }
}

/// Whether the directory at `parts` is excluded as a project artifact.
fn is_excluded_project_dir(parts: &Vec<Component>, dir: &DirFacts) -> (yes: bool)
    ensures
        yes == is_project_exclusion(
            part_views(parts@),
            dir.has_ignore_marker,
            dir.cargo_manifest_beside,
            dir.composer_manifest_beside,
        ),
{
    if dir.has_ignore_marker {
        return true;
    }
    let anchor = components(utf8_bytes(ANCHOR_EXPAND_TARGET).as_slice());
    if ends_with(parts, &anchor) {
        return true;
    }
    match file_name(parts) {
        Some(name) => {
            (same_bytes(name.as_slice(), utf8_bytes(CARGO_TARGET_DIR).as_slice())
                && dir.cargo_manifest_beside) || (same_bytes(
                name.as_slice(),
                utf8_bytes(COMPOSER_VENDOR_DIR).as_slice(),
            ) && dir.composer_manifest_beside)
        },
        None => false,
    }
}

/// All exclude patterns of a snapshot: the per-project ones found by the
/// walk of the source tree, then the common ones.
pub fn patterns(project: Vec<Vec<u8>>, common: &Vec<String>) -> (all: Vec<Vec<u8>>)
    ensures
        byte_views(all@) == byte_views(project@) + utf8_all(string_views(common@)),
{
    let mut all = project;
    let ghost start = byte_views(all@);
    let ghost list = string_views(common@);
    let mut i: usize = 0;
    while i < common.len()
        invariant
            i <= common@.len(),
            list == string_views(common@),
            byte_views(all@) =~= start + utf8_all(list.take(i as int)),
        decreases common@.len() - i,
    {
        let bytes = utf8_bytes(common[i].as_str());
        let ghost before = byte_views(all@);
        all.push(bytes);
        assert(byte_views(all@) =~= before.push(bytes@));
        assert(utf8_all(list.take(i + 1)) =~= utf8_all(list.take(i as int)).push(
            encode_utf8(list[i as int]),
        ));
        i += 1;
    }
    assert(list.take(common@.len() as int) =~= list);
    all
}

/// tar's arguments for the exclude patterns: each one after `--exclude`.
pub open spec fn exclude_arg_list(patterns: Seq<Seq<u8>>) -> Seq<Seq<u8>>
    decreases patterns.len(),
{
    if patterns.len() == 0 {
        Seq::empty()
    } else {
        exclude_arg_list(patterns.drop_last()) + seq![encode_utf8("--exclude"@), patterns.last()]
    }
}

/// Each pattern stands right after its own `--exclude`, in the order of
/// the patterns.
pub proof fn lemma_exclude_args_pair_up(patterns: Seq<Seq<u8>>)
    ensures
        exclude_arg_list(patterns).len() == 2 * patterns.len(),
        forall|i: int|
            0 <= i < patterns.len() ==> {
                &&& #[trigger] exclude_arg_list(patterns)[2 * i] == encode_utf8("--exclude"@)
                &&& exclude_arg_list(patterns)[2 * i + 1] == patterns[i]
            },
    decreases patterns.len(),
{
    if patterns.len() > 0 {
        let front = patterns.drop_last();
        lemma_exclude_args_pair_up(front);
        let args = exclude_arg_list(patterns);
        assert forall|i: int| 0 <= i < patterns.len() implies {
            &&& #[trigger] args[2 * i] == encode_utf8("--exclude"@)
            &&& args[2 * i + 1] == patterns[i]
        } by {
            if i < front.len() {
                assert(args[2 * i] == exclude_arg_list(front)[2 * i]);
                assert(args[2 * i + 1] == exclude_arg_list(front)[2 * i + 1]);
                assert(front[i] == patterns[i]);
            }
        }
    }
}

/// The exclude patterns interleaved with `--exclude`, so they can be
/// passed to tar directly.
pub fn tar_args(patterns: &Vec<Vec<u8>>) -> (args: Vec<Vec<u8>>)
    ensures
        byte_views(args@) == exclude_arg_list(byte_views(patterns@)),
        args@.len() == 2 * patterns@.len(),
        forall|i: int|
            0 <= i < patterns@.len() ==> {
                &&& #[trigger] args@[2 * i]@ == encode_utf8("--exclude"@)
                &&& args@[2 * i + 1]@ == patterns@[i]@
            },
{
    let ghost list = byte_views(patterns@);
    let mut args: Vec<Vec<u8>> = Vec::new();
    let mut i: usize = 0;
    while i < patterns.len()
        invariant
            i <= patterns@.len(),
            list == byte_views(patterns@),
            byte_views(args@) =~= exclude_arg_list(list.take(i as int)),
        decreases patterns@.len() - i,
    {
        let flag = utf8_bytes("--exclude");
        let pattern = copy_bytes(&patterns[i]);
        let ghost before = byte_views(args@);
        args.push(flag);
        args.push(pattern);
        assert(byte_views(args@) =~= before + seq![flag@, pattern@]);
        assert(list.take(i + 1).drop_last() =~= list.take(i as int));
        i += 1;
    }
    assert(list.take(patterns@.len() as int) =~= list);
    proof {
        lemma_exclude_args_pair_up(list);
        assert forall|i: int| 0 <= i < patterns@.len() implies {
            &&& #[trigger] args@[2 * i]@ == encode_utf8("--exclude"@)
            &&& args@[2 * i + 1]@ == patterns@[i]@
        } by {
            assert(byte_views(args@)[2 * i] == args@[2 * i]@);
            assert(byte_views(args@)[2 * i + 1] == args@[2 * i + 1]@);
            assert(list[i] == patterns@[i]@);
        }
    }
    args
}

/// Whitespace around a line's text never reaches its glob: the line gives
/// the same glob with whitespace put before or after it, and a glob never
/// ends in whitespace. After its anchor, a glob never starts with `/`.
pub proof fn lemma_line_glob_ignores_trailing_whitespace(rel_dir: Seq<char>, line: Seq<char>, c: char)
    requires
        is_whitespace(c),
    ensures
        line_pattern(rel_dir, line.push(c)) == line_pattern(rel_dir, line),
        line_pattern(rel_dir, seq![c] + line) == line_pattern(rel_dir, line),
        line_pattern(rel_dir, line) matches Some(glob) ==> glob.len() > 0 && !is_whitespace(
            glob.last(),
        ),
        line_pattern(rel_dir, line) matches Some(glob) ==> ({
            let tail = glob.skip(ignore_anchor(rel_dir).len() as int);
            tail.len() == 0 || tail[0] != '/'
        }),
{
    assert((seq![c] + line).drop_first() =~= line);
    lemma_trim_start_char_leaves_no_lead(trim(line), '/');
    lemma_trim_drops_trailing_whitespace(line, c);
    let t = trim(line);
    lemma_trim_end_ends_in_text(trim_start(line));
    lemma_trim_start_char_keeps_last(t, '/');
    if let Some(glob) = line_pattern(rel_dir, line) {
        reveal_strlit("./");
        reveal_strlit("/");
        let anchor = ignore_anchor(rel_dir);
        let tail = trim_start_char(t, '/');
        assert(anchor.len() > 0 && anchor.last() == '/');
        assert(glob == anchor + tail);
        assert(glob.skip(anchor.len() as int) =~= tail);
        if tail.len() > 0 {
            assert(glob.last() == tail.last());
        } else {
            assert(glob =~= anchor);
        }
    }
}

/// In an ignore file, whitespace after a line's text (a space, a tab, a
/// `\r` before the line break) gives the same globs as the line without it.
pub proof fn lemma_ignore_file_ignores_trailing_whitespace(
    rel_dir: Seq<char>,
    line: Seq<char>,
    c: char,
    rest: Seq<char>,
)
    requires
        !line.contains('\n'),
        is_whitespace(c),
        c != '\n',
        rest.len() == 0 || rest[0] == '\n',
    ensures
        scoped_pattern_list(rel_dir, line.push(c) + rest) == scoped_pattern_list(rel_dir, line + rest),
{
    let a = line.push(c) + rest;
    let b = line + rest;
    let n = line.len() as int;
    assert forall|i: int| 0 <= i < n + 1 implies a[i] != '\n' by {
        if i < n {
            assert(a[i] == line[i]);
        }
    }
    assert forall|i: int| 0 <= i < n implies b[i] != '\n' by {
        assert(b[i] == line[i]);
    }
    lemma_line_end_from(a, n + 1);
    lemma_line_end_from(b, n);
    assert(a.take(n + 1) =~= line.push(c));
    assert(b.take(n) =~= line);
    lemma_line_glob_ignores_trailing_whitespace(rel_dir, line, c);
    if rest.len() > 0 {
        assert(a.skip(n + 2) =~= b.skip(n + 1));
    }
}

/// No glob of an ignore file ends in whitespace.
pub proof fn lemma_ignore_globs_end_in_text(rel_dir: Seq<char>, content: Seq<char>)
    ensures
        forall|i: int|
            0 <= i < scoped_pattern_list(rel_dir, content).len() ==> {
                &&& #[trigger] scoped_pattern_list(rel_dir, content)[i].len() > 0
                &&& !is_whitespace(scoped_pattern_list(rel_dir, content)[i].last())
            },
    decreases content.len(),
{
    let end = line_end(content);
    lemma_line_end_bound(content);
    let list = scoped_pattern_list(rel_dir, content);
    let line = content.take(end as int);
    lemma_line_glob_ignores_trailing_whitespace(rel_dir, line, ' ');
    let here = match line_pattern(rel_dir, line) {
        Some(p) => seq![p],
        None => Seq::<Seq<char>>::empty(),
    };
    if end < content.len() {
        let tail = content.skip(end + 1 as int);
        lemma_ignore_globs_end_in_text(rel_dir, tail);
        assert forall|i: int| 0 <= i < list.len() implies {
            &&& #[trigger] list[i].len() > 0
            &&& !is_whitespace(list[i].last())
        } by {
            if i >= here.len() {
                assert(list[i] == scoped_pattern_list(rel_dir, tail)[i - here.len()]);
            }
        }
    }
}

/// The per-project exclusions of the walk, below the source root: a
/// directory is excluded exactly when it holds the ignore marker, ends
/// with Anchor's `.anchor/expanded-macros/expand-target`, is a `target`
/// directory beside `Cargo.toml`, or is a `vendor` directory beside
/// `composer.json`. An excluded directory is not descended into, and when
/// it lies under the source root its pattern is `./` and its path below
/// the root; any other directory adds no exclusion pattern.
pub proof fn lemma_project_artifacts_are_excluded(
    dir: DirFacts,
    source_dir: Seq<u8>,
    common: Seq<Seq<char>>,
)
    requires
        dir.depth > 0,
    ensures
        dir_is_project_exclusion(dir) <==> {
            ||| dir.has_ignore_marker
            ||| ends_with_parts(
                path_components(dir.path@),
                path_components(encode_utf8(".anchor/expanded-macros/expand-target"@)),
            )
            ||| file_name_of(path_components(dir.path@)) == Some(encode_utf8("target"@))
                && dir.cargo_manifest_beside
            ||| file_name_of(path_components(dir.path@)) == Some(encode_utf8("vendor"@))
                && dir.composer_manifest_beside
        },
        dir_is_project_exclusion(dir) ==> !visit_descends(dir, source_dir, common),
        exclusion_patterns(dir, source_dir) == match rel_parts(dir, source_dir) {
            Some(rel) => if dir_is_project_exclusion(dir) {
                seq![encode_utf8("./"@) + join_parts(rel)]
            } else {
                Seq::<Seq<u8>>::empty()
            },
            None => Seq::<Seq<u8>>::empty(),
        },
{
}

/// A `./`-anchored common pattern covers exactly the directory whose
/// components below the source root are those of the pattern's path: not
/// a proper ancestor of it (the walk goes on into `go` to reach `go/pkg`),
/// not any other directory, and nothing outside the source root.
pub proof fn lemma_anchored_patterns_cover_exactly(
    rel: Seq<PathPart>,
    parts: Seq<PathPart>,
    pattern: Seq<char>,
)
    requires
        has_prefix(pattern, "./"@),
    ensures
        covered_by(Some(rel), parts, pattern) <==> rel == path_components(
            encode_utf8(pattern.skip(2)),
        ),
        ({
            let named = path_components(encode_utf8(pattern.skip(2)));
            rel.len() < named.len() && named.take(rel.len() as int) == rel ==> !covered_by(
                Some(rel),
                parts,
                pattern,
            )
        }),
        !covered_by(None, parts, pattern),
{
}

/// The common list names the documented patterns, in order, and ends with
/// the trash directory of the user; a directory named `node_modules`,
/// `.venv`, `.pnpm-store` or `test-ledger` is covered wherever it lies.
pub proof fn lemma_common_list_names_the_documented_patterns(uid: nat)
    ensures
        common_pattern_list(uid) == seq![
            "node_modules"@,
            ".venv"@,
            ".pnpm-store"@,
            "test-ledger"@,
            "./go/pkg"@,
            "./.cache/uv"@,
            "dhat.out.*"@,
            "heaptrack.*"@,
            ".Trash-"@ + decimal(uid),
        ],
        forall|rel: Option<Seq<PathPart>>, parts: Seq<PathPart>|
            #![trigger covered_by_any(rel, parts, common_pattern_list(uid))]
            {
                ||| file_name_of(parts) == Some(encode_utf8("node_modules"@))
                ||| file_name_of(parts) == Some(encode_utf8(".venv"@))
                ||| file_name_of(parts) == Some(encode_utf8(".pnpm-store"@))
                ||| file_name_of(parts) == Some(encode_utf8("test-ledger"@))
            } ==> covered_by_any(rel, parts, common_pattern_list(uid)),
{
    let list = common_pattern_list(uid);
    reveal_strlit("./");
    reveal_strlit("node_modules");
    reveal_strlit(".venv");
    reveal_strlit(".pnpm-store");
    reveal_strlit("test-ledger");
    assert(!"node_modules"@.contains('*'));
    assert(!".venv"@.contains('*'));
    assert(!".pnpm-store"@.contains('*'));
    assert(!"test-ledger"@.contains('*'));
    assert("node_modules"@.take(2)[0] != "./"@[0]);
    assert(!has_prefix("node_modules"@, "./"@));
    assert(".venv"@.take(2)[1] != "./"@[1]);
    assert(!has_prefix(".venv"@, "./"@));
    assert(".pnpm-store"@.take(2)[1] != "./"@[1]);
    assert(!has_prefix(".pnpm-store"@, "./"@));
    assert("test-ledger"@.take(2)[0] != "./"@[0]);
    assert(!has_prefix("test-ledger"@, "./"@));
    assert forall|rel: Option<Seq<PathPart>>, parts: Seq<PathPart>|
        {
            ||| file_name_of(parts) == Some(encode_utf8("node_modules"@))
            ||| file_name_of(parts) == Some(encode_utf8(".venv"@))
            ||| file_name_of(parts) == Some(encode_utf8(".pnpm-store"@))
            ||| file_name_of(parts) == Some(encode_utf8("test-ledger"@))
        } implies #[trigger] covered_by_any(rel, parts, list) by {
        if file_name_of(parts) == Some(encode_utf8("node_modules"@)) {
            assert(covered_by(rel, parts, list[0]));
        } else if file_name_of(parts) == Some(encode_utf8(".venv"@)) {
            assert(covered_by(rel, parts, list[1]));
        } else if file_name_of(parts) == Some(encode_utf8(".pnpm-store"@)) {
            assert(covered_by(rel, parts, list[2]));
        } else {
            assert(covered_by(rel, parts, list[3]));
        }
    }
}

} // verus!
