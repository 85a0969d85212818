//! Planning snapshot runs: which archive and listing a run writes, and the
//! tar command line that writes them; and the size report of an archive.

use vstd::prelude::*;

use vstd::utf8::encode_utf8;

use crate::storage::{
    archive_path_of, incremental_stem_of, is_snar_lookup, name_views, snar_path_of, Storage,
    StorageError,
};
use crate::text::{copy_bytes, decimal, decimal_string, utf8_bytes};
use crate::timestamp::{self, is_clock_rendering};

verus! {

/// `n / d` rounded to the nearest integer, ties to even.
pub open spec fn div_round_half_even(n: nat, d: nat) -> nat
    recommends
        d > 0,
{
    let q = n / d;
    let r = n % d;
    if 2 * r > d || (2 * r == d && q % 2 == 1) {
        q + 1
    } else {
        q
    }
}

/// Spacing of the `f64` values around `b`: `f64` holds 53 significant
/// bits, so integers from `2^53` on are spaced by growing powers of two.
pub open spec fn f64_spacing(b: nat) -> nat {
    if b < 0x20_0000_0000_0000 {
        1
    } else if b < 0x40_0000_0000_0000 {
        2
    } else if b < 0x80_0000_0000_0000 {
        4
    } else if b < 0x100_0000_0000_0000 {
        8
    } else if b < 0x200_0000_0000_0000 {
        16
    } else if b < 0x400_0000_0000_0000 {
        32
    } else if b < 0x800_0000_0000_0000 {
        64
    } else if b < 0x1000_0000_0000_0000 {
        128
    } else if b < 0x2000_0000_0000_0000 {
        256
    } else if b < 0x4000_0000_0000_0000 {
        512
    } else if b < 0x8000_0000_0000_0000 {
        1024
    } else {
        2048
    }
}

/// The value of `b as f64` for a `u64` `b`: `b` rounded to the nearest
/// `f64`, ties to even.
pub open spec fn f64_value(b: nat) -> nat {
    div_round_half_even(b, f64_spacing(b)) * f64_spacing(b)
}

/// Binary unit a size is reported in: the greatest of B, KiB, MiB, GiB,
/// TiB that the size reaches (B for sizes below 1 KiB).
pub open spec fn size_unit(v: nat) -> nat {
    if v < 0x400 {
        0
    } else if v < 0x10_0000 {
        1
    } else if v < 0x4000_0000 {
        2
    } else if v < 0x100_0000_0000 {
        3
    } else {
        4
    }
}

/// Bytes in one of the unit.
pub open spec fn unit_bytes(unit: nat) -> nat {
    if unit == 0 {
        1
    } else if unit == 1 {
        0x400
    } else if unit == 2 {
        0x10_0000
    } else if unit == 3 {
        0x4000_0000
    } else {
        0x100_0000_0000
    }
}

pub open spec fn unit_name(unit: nat) -> Seq<char> {
    if unit == 0 {
        "B"@
    } else if unit == 1 {
        "KiB"@
    } else if unit == 2 {
        "MiB"@
    } else if unit == 3 {
        "GiB"@
    } else {
        "TiB"@
    }
}

/// The report of a size of `bytes`: whole bytes below 1 KiB, otherwise the
/// size as an `f64` in the greatest unit it reaches, with one decimal,
/// rounded half to even as `{:.1}` rounds it.
pub open spec fn human_size_text(bytes: nat) -> Seq<char> {
    let v = f64_value(bytes);
    let unit = size_unit(v);
    if unit == 0 {
        decimal(bytes) + " "@ + unit_name(0)
    } else {
        let tenths = div_round_half_even(v * 10, unit_bytes(unit));
        decimal(tenths / 10) + "."@ + decimal(tenths % 10) + " "@ + unit_name(unit)
    }
}

fn div_round_half_even_exec(n: u128, d: u128) -> (q: u128)
    requires
        d > 0,
        n < 0x1_0000_0000_0000_0000_0000_0000,
    ensures
        q == div_round_half_even(n as nat, d as nat),
{
    let q = n / d;
    let r = n % d;
    assert(q <= n) by (nonlinear_arith)
        requires
            d > 0,
            q == n / d,
    ;
    if r > d - r || (r == d - r && q % 2 == 1) {
        q + 1
    } else {
        q
    }
}

fn f64_spacing_exec(b: u64) -> (spacing: u128)
    ensures
        spacing == f64_spacing(b as nat),
{
    if b < 0x20_0000_0000_0000 {
        1
    } else if b < 0x40_0000_0000_0000 {
        2
    } else if b < 0x80_0000_0000_0000 {
        4
    } else if b < 0x100_0000_0000_0000 {
        8
    } else if b < 0x200_0000_0000_0000 {
        16
    } else if b < 0x400_0000_0000_0000 {
        32
    } else if b < 0x800_0000_0000_0000 {
        64
    } else if b < 0x1000_0000_0000_0000 {
        128
    } else if b < 0x2000_0000_0000_0000 {
        256
    } else if b < 0x4000_0000_0000_0000 {
        512
    } else if b < 0x8000_0000_0000_0000 {
        1024
    } else {
        2048
    }
}

fn unit_name_exec(unit: usize) -> (name: &'static str)
    requires
        unit <= 4,
    ensures
        name@ == unit_name(unit as nat),
{
    if unit == 0 {
        "B"
    } else if unit == 1 {
        "KiB"
    } else if unit == 2 {
        "MiB"
    } else if unit == 3 {
        "GiB"
    } else {
        "TiB"
    }
}

/// Human-readable size of an archive, in binary units: the size as an
/// `f64`, divided by 1024 until it falls below 1024 or reaches TiB, written
/// with one decimal. Divisions by 1024 are exact on `f64`, so the digits
/// are those of the exact quotient of the rounded size; they are computed
/// here with integers.
pub fn human_size(bytes: u64) -> (text: String)
    ensures
        text@ == human_size_text(bytes as nat),
{
    let spacing = f64_spacing_exec(bytes);
    let rounded = div_round_half_even_exec(bytes as u128, spacing);
    assert(rounded * spacing <= 0x1_0000_0000_0000_0800) by (nonlinear_arith)
        requires
            rounded <= (bytes as int) / (spacing as int) + 1,
            1 <= spacing <= 2048,
            bytes < 0x1_0000_0000_0000_0000,
    {
        assert(((bytes as int) / (spacing as int)) * spacing <= bytes);
    }
    let value = rounded * spacing;
    let unit: usize = if value < 0x400 {
        0
    } else if value < 0x10_0000 {
        1
    } else if value < 0x4000_0000 {
        2
    } else if value < 0x100_0000_0000 {
        3
    } else {
        4
    };
    let mut text;
    if unit == 0 {
        text = decimal_string(bytes);
        text.append(" ");
        text.append(unit_name_exec(0));
    } else {
        let divisor: u128 = if unit == 1 {
            0x400
        } else if unit == 2 {
            0x10_0000
        } else if unit == 3 {
            0x4000_0000
        } else {
            0x100_0000_0000
        };
        let tenths = div_round_half_even_exec(value * 10, divisor);
        assert(tenths < 0x1_0000_0000_0000_0000) by (nonlinear_arith)
            requires
                tenths <= (value * 10) / (divisor as int) + 1,
                divisor >= 0x400,
                value <= 0x1_0000_0000_0000_0800,
        ;
        text = decimal_string((tenths / 10) as u64);
        text.append(".");
        text.append(decimal_string((tenths % 10) as u64).as_str());
        text.append(" ");
        text.append(unit_name_exec(unit));
    }
    text
}

/// How much tar lists while it archives.
#[derive(Clone, Copy, PartialEq, Eq, Structural)]
pub enum TarVerbosity {
    /// Every file as it is archived: a full run takes long, and the list
    /// shows its progress.
    Verbose,
    Quiet,
}

/// tar's mode flags: create, gzip, keep permissions, archive file, and
/// `v` for a verbose run.
pub open spec fn mode_flags(verbosity: TarVerbosity) -> Seq<char> {
    match verbosity {
        TarVerbosity::Verbose => "-czvpf"@,
        TarVerbosity::Quiet => "-czpf"@,
    }
}

/// A tar run: the snapshot stem it writes, the listing it reads and
/// updates in place, and the archive it creates. With `fresh_listing`, a
/// listing already at `snar` (an earlier run of the same minute) is removed
/// before tar runs, so that tar starts from scratch.
pub struct TarRun {
    pub stem: String,
    pub snar: String,
    pub archive: String,
    pub verbosity: TarVerbosity,
    pub fresh_listing: bool,
}

/// `run` writes the snapshot `stem` into the storage directory `dir`.
pub open spec fn is_run_of(
    run: TarRun,
    dir: Seq<char>,
    stem: Seq<char>,
    verbosity: TarVerbosity,
    fresh_listing: bool,
) -> bool {
    &&& run.stem@ == stem
    &&& run.snar@ == snar_path_of(dir, stem)
    &&& run.archive@ == archive_path_of(dir, stem)
    &&& run.verbosity == verbosity
    &&& run.fresh_listing == fresh_listing
}

/// The run that writes snapshot `stem` into the storage.
pub fn tar_run(storage: &Storage, stem: String, verbosity: TarVerbosity, fresh_listing: bool) -> (run:
    TarRun)
    ensures
        is_run_of(run, storage@, stem@, verbosity, fresh_listing),
{
    let snar = storage.snar_path(stem.as_str());
    let archive = storage.archive_path(stem.as_str());
    TarRun { stem, snar, archive, verbosity, fresh_listing }
}

/// Why a snapshot run could not be planned.
pub enum RunError {
    /// The base of an incremental run was not found.
    Storage(StorageError),
    /// The system clock could not be read as a date.
    Clock,
}

/// A full snapshot, stamped with the current local time: created from
/// scratch with a fresh listing, and an archive of everything.
pub fn create_full(storage: &Storage) -> (run: Result<TarRun, RunError>)
    ensures
        match run {
            Ok(r) => is_clock_rendering(r.stem@) && is_run_of(
                r,
                storage@,
                r.stem@,
                TarVerbosity::Verbose,
                true,
            ),
            Err(e) => e is Clock,
        },
{
    match timestamp::now() {
        Some(stem) => Ok(tar_run(storage, stem, TarVerbosity::Verbose, true)),
        None => Err(RunError::Clock),
    }
}

/// An incremental snapshot on top of a base: the base's listing is copied
/// to `run.snar` first, and tar then updates the copy in place, so it is
/// both the "previous state" input and the new snapshot's own listing.
pub struct IncrementalRun {
    pub base_snar: String,
    pub run: TarRun,
}

/// `planned` is the incremental run taken at `now` on top of the snapshot
/// `base`, among the storage directory `dir` holding `names`.
pub open spec fn is_incremental_plan(
    dir: Seq<char>,
    names: Seq<Seq<char>>,
    base: Seq<char>,
    now: Seq<char>,
    planned: Result<IncrementalRun, StorageError>,
) -> bool {
    match planned {
        Ok(inc) => {
            &&& is_snar_lookup(dir, names, base, Ok(inc.base_snar))
            &&& is_run_of(inc.run, dir, incremental_stem_of(now, base), TarVerbosity::Quiet, false)
        },
        Err(e) => is_snar_lookup(dir, names, base, Err(e)),
    }
}

/// The run of an incremental snapshot taken at `now` on top of `base`,
/// whose listing `base_snar` is copied first.
fn incremental_run(storage: &Storage, base_snar: String, base: &str, now: &str) -> (inc:
    IncrementalRun)
    ensures
        inc.base_snar == base_snar,
        is_run_of(inc.run, storage@, incremental_stem_of(now@, base@), TarVerbosity::Quiet, false),
{
    let stem = Storage::incremental_stem(now, base);
    IncrementalRun { base_snar, run: tar_run(storage, stem, TarVerbosity::Quiet, false) }
}

/// The incremental run taken at timestamp `now` on top of the snapshot
/// `base`, given the names of the storage directory's files.
pub fn plan_incremental(storage: &Storage, names: &[String], base: &str, now: &str) -> (planned:
    Result<IncrementalRun, StorageError>)
    ensures
        is_incremental_plan(storage@, name_views(names@), base@, now@, planned),
{
    match storage.find_snar_by_timestamp(names, base) {
        Ok(base_snar) => Ok(incremental_run(storage, base_snar, base, now)),
        Err(e) => Err(e),
    }
}

/// An incremental snapshot on top of `base`, stamped with the current
/// local time. The base's listing is looked up before the clock is read.
pub fn create_incremental(storage: &Storage, names: &[String], base: &str) -> (planned: Result<
    IncrementalRun,
    RunError,
>)
    ensures
        match planned {
            Ok(inc) => exists|now: Seq<char>|
                is_clock_rendering(now) && #[trigger] is_incremental_plan(
                    storage@,
                    name_views(names@),
                    base@,
                    now,
                    Ok(inc),
                ),
            Err(RunError::Storage(e)) => is_snar_lookup(
                storage@,
                name_views(names@),
                base@,
                Err(e),
            ),
            Err(RunError::Clock) => exists|snar: String|
                #[trigger] is_snar_lookup(storage@, name_views(names@), base@, Ok(snar)),
        },
{
    match storage.find_snar_by_timestamp(names, base) {
        Ok(base_snar) => {
            match timestamp::now() {
                Some(now) => {
                    let inc = incremental_run(storage, base_snar, base, now.as_str());
                    assert(is_incremental_plan(
                        storage@,
                        name_views(names@),
                        base@,
                        now@,
                        Ok(inc),
                    ));
                    Ok(inc)
                },
                None => {
                    assert(is_snar_lookup(storage@, name_views(names@), base@, Ok(base_snar)));
                    Err(RunError::Clock)
                },
            }
        },
        Err(e) => Err(RunError::Storage(e)),
    }
}

/// The views of a list of arguments.
pub open spec fn arg_views(args: Seq<Vec<u8>>) -> Seq<Seq<u8>> {
    args.map_values(|a: Vec<u8>| a@)
}

/// The arguments of tar for `run` of the source directory: change into
/// the source, keep the listing, create the archive, stay on one file
/// system, store sparse files efficiently, apply the exclusion arguments,
/// and archive `.`.
pub open spec fn tar_command_line(
    source_dir: Seq<char>,
    run: TarRun,
    exclude_args: Seq<Seq<u8>>,
) -> Seq<Seq<u8>> {
    seq![
        encode_utf8("-C"@),
        encode_utf8(source_dir),
        encode_utf8("--listed-incremental="@) + encode_utf8(run.snar@),
        encode_utf8(mode_flags(run.verbosity)),
        encode_utf8(run.archive@),
        encode_utf8("--one-file-system"@),
        encode_utf8("--sparse"@),
    ] + exclude_args + seq![encode_utf8("."@)]
}

/// The command line of tar for `run`.
pub fn tar_command(source_dir: &str, run: &TarRun, exclude_args: Vec<Vec<u8>>) -> (args: Vec<
    Vec<u8>,
>)
    ensures
        arg_views(args@) == tar_command_line(source_dir@, *run, arg_views(exclude_args@)),
{
    let mut args: Vec<Vec<u8>> = Vec::new();
    args.push(utf8_bytes("-C"));
    args.push(utf8_bytes(source_dir));
    let mut listed = utf8_bytes("--listed-incremental=");
    let mut snar = utf8_bytes(run.snar.as_str());
    listed.append(&mut snar);
    args.push(listed);
    let flags = match run.verbosity {
        TarVerbosity::Verbose => "-czvpf",
        TarVerbosity::Quiet => "-czpf",
    };
    args.push(utf8_bytes(flags));
    args.push(utf8_bytes(run.archive.as_str()));
    args.push(utf8_bytes("--one-file-system"));
    args.push(utf8_bytes("--sparse"));
    let ghost head = args@;
    let mut i: usize = 0;
    while i < exclude_args.len()
        invariant
            i <= exclude_args@.len(),
            arg_views(args@) =~= arg_views(head) + arg_views(exclude_args@.take(i as int)),
        decreases exclude_args@.len() - i,
    {
        let arg = copy_bytes(&exclude_args[i]);
        let ghost before = args@;
        args.push(arg);
        assert(arg_views(args@) =~= arg_views(before).push(arg@));
        assert(arg_views(exclude_args@.take(i + 1)) =~= arg_views(exclude_args@.take(i as int)).push(
            exclude_args@[i as int]@,
        ));
        i += 1;
    }
    let ghost before = args@;
    let dot = utf8_bytes(".");
    args.push(dot);
    assert(arg_views(args@) =~= arg_views(before).push(dot@));
    assert(exclude_args@.take(exclude_args@.len() as int) =~= exclude_args@);
    assert(arg_views(head) =~= seq![
        encode_utf8("-C"@),
        encode_utf8(source_dir@),
        encode_utf8("--listed-incremental="@) + encode_utf8(run.snar@),
        encode_utf8(mode_flags(run.verbosity)),
        encode_utf8(run.archive@),
        encode_utf8("--one-file-system"@),
        encode_utf8("--sparse"@),
    ]);
    assert(arg_views(args@) =~= tar_command_line(source_dir@, *run, arg_views(exclude_args@)));
    args
}

/// Both kinds of run gzip their archive and keep permissions; they differ
/// only in listing: a full (verbose) run passes `-czvpf`, an incremental
/// (quiet) one the same flags without `v`. tar's arguments are, in order:
/// `-C` and the source, the listing, these flags, the archive,
/// `--one-file-system`, `--sparse`, the exclusion arguments, and `.`.
pub proof fn lemma_runs_differ_only_in_listing(
    source_dir: Seq<char>,
    run: TarRun,
    exclude_args: Seq<Seq<u8>>,
)
    ensures
        mode_flags(TarVerbosity::Verbose) == "-czvpf"@,
        mode_flags(TarVerbosity::Quiet) == mode_flags(TarVerbosity::Verbose).remove(3),
        mode_flags(TarVerbosity::Quiet).contains('z') && !mode_flags(TarVerbosity::Quiet).contains(
            'v',
        ),
        tar_command_line(source_dir, run, exclude_args).len() == exclude_args.len() + 8,
        tar_command_line(source_dir, run, exclude_args)[0] == encode_utf8("-C"@),
        tar_command_line(source_dir, run, exclude_args)[1] == encode_utf8(source_dir),
        tar_command_line(source_dir, run, exclude_args)[2] == encode_utf8(
            "--listed-incremental="@,
        ) + encode_utf8(run.snar@),
        tar_command_line(source_dir, run, exclude_args)[4] == encode_utf8(run.archive@),
        tar_command_line(source_dir, run, exclude_args)[5] == encode_utf8("--one-file-system"@),
        tar_command_line(source_dir, run, exclude_args)[6] == encode_utf8("--sparse"@),
        tar_command_line(source_dir, run, exclude_args).subrange(
            7,
            7 + exclude_args.len() as int,
        ) == exclude_args,
        tar_command_line(source_dir, run, exclude_args).last() == encode_utf8("."@),
        tar_command_line(source_dir, run, exclude_args)[3] == encode_utf8(
            if run.verbosity == TarVerbosity::Verbose {
                "-czvpf"@
            } else {
                "-czpf"@
            },
        ),
{
    reveal_strlit("-czvpf");
    reveal_strlit("-czpf");
    assert(mode_flags(TarVerbosity::Quiet) =~= mode_flags(TarVerbosity::Verbose).remove(3));
    assert(mode_flags(TarVerbosity::Quiet)[2] == 'z');
    assert(tar_command_line(source_dir, run, exclude_args).subrange(7, 7 + exclude_args.len() as int)
        =~= exclude_args);
}

} // verus!
