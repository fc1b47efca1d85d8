//! Building the image that starts the system.
use vstd::prelude::*;

use crate::path;
use crate::text;

verus! {

// ---------------------------------------------------------------------------
// The command line

/// Whether the help text is asked for. The first argument is the program.
pub fn wants_help(args: &Vec<String>) -> (r: bool)
    ensures
        r == (args@.len() > 1 && (args@[1]@ == "--help"@ || args@[1]@ == "-h"@)),
{
    args.len() > 1 && (text::same(&args[1], "--help") || text::same(&args[1], "-h"))
}

/// The lines of the help text.
pub open spec fn help_text() -> Seq<Seq<char>> {
    seq![
        ""@,
        "-----------------------------------"@,
        "::: [ Liska Initramfs (1.0.0) ] :::"@,
        "-----------------------------------"@,
        "Usage: lkinit <command> [target (optional for --root and --output)]"@,
        "> --root <path>            specify the root filesystem path (default: /)"@,
        "> --output <path>          specify the output initramfs image path (default: /boot/initramfs-liska.img)"@,
        "> /etc/lkinit.d/init.rs    default init template path"@,
        ""@,
    ]
}

/// The lines of the help text.
pub fn help_lines() -> (r: Vec<String>)
    ensures
        text::texts(r@) == help_text(),
{
    let r = vec![
        "".to_owned(),
        "-----------------------------------".to_owned(),
        "::: [ Liska Initramfs (1.0.0) ] :::".to_owned(),
        "-----------------------------------".to_owned(),
        "Usage: lkinit <command> [target (optional for --root and --output)]".to_owned(),
        "> --root <path>            specify the root filesystem path (default: /)".to_owned(),
        "> --output <path>          specify the output initramfs image path (default: /boot/initramfs-liska.img)".to_owned(),
        "> /etc/lkinit.d/init.rs    default init template path".to_owned(),
        "".to_owned(),
    ];
    assert(text::texts(r@) =~= help_text());
    r
}

/// The root and the image that the arguments from the `i`th on ask for. An
/// option without a value, and what is no option, count for nothing.
pub open spec fn requested(
    args: Seq<Seq<char>>,
    i: int,
    root: Seq<char>,
    output: Seq<char>,
) -> (Seq<char>, Seq<char>)
    decreases args.len() - i,
{
    if i < 0 || i >= args.len() {
        (root, output)
    } else if args[i] == "--root"@ && i + 1 < args.len() {
        requested(args, i + 2, args[i + 1], output)
    } else if args[i] == "--output"@ && i + 1 < args.len() {
        requested(args, i + 2, root, args[i + 1])
    } else {
        requested(args, i + 1, root, output)
    }
}

/// The root and the image that the arguments ask for. The first argument is
/// the program.
pub fn parse_args(args: &Vec<String>) -> (r: (String, String))
    ensures
        (r.0@, r.1@) == requested(text::texts(args@), 1, "/"@, "/boot/initramfs-liska.img"@),
{
    let ghost all = text::texts(args@);
    let mut root = "/".to_owned();
    let mut output = "/boot/initramfs-liska.img".to_owned();
    let mut i: usize = 1;
    let n: usize = args.len();
    while i < n
        invariant
            n == args@.len(),
            all == text::texts(args@),
            requested(all, 1, "/"@, "/boot/initramfs-liska.img"@) == requested(
                all,
                i as int,
                root@,
                output@,
            ),
        decreases n - i,
    {
        assert(all[i as int] == args@[i as int]@);
        if text::same(&args[i], "--root") && n - i > 1 {
            assert(all[i + 1] == args@[i + 1]@);
            root = text::copy(&args[i + 1]);
            i = i + 2;
        } else if text::same(&args[i], "--output") && n - i > 1 {
            assert(all[i + 1] == args@[i + 1]@);
            output = text::copy(&args[i + 1]);
            i = i + 2;
        } else {
            i = i + 1;
        }
    }
    (root, output)
}

/// Where an image is built.
pub fn cache_dir(rootfs: &str) -> (r: String)
    ensures
        r@ == path::joined(rootfs@, "var/cache/lkinit"@),
{
    path::join(rootfs, "var/cache/lkinit")
}

// ---------------------------------------------------------------------------
// The kernel

/// The first directory of a listing, from the `i`th entry on.
pub open spec fn first_directory(entries: Seq<(Seq<char>, bool)>, i: int) -> Option<Seq<char>>
    decreases entries.len() - i,
{
    if i < 0 || i >= entries.len() {
        None
    } else if entries[i].1 {
        Some(entries[i].0)
    } else {
        first_directory(entries, i + 1)
    }
}

/// The version of the kernel: the first directory among the modules.
pub fn find_kernel_version(entries: &Vec<(String, bool)>) -> (r: Result<String, String>)
    ensures
        match r {
            Ok(v) => first_directory(crate::ui::flagged(entries@), 0) == Some(v@),
            Err(e) => first_directory(crate::ui::flagged(entries@), 0) is None && e@
                == "FATAL: kernel version not found!"@,
        },
{
    let ghost all = crate::ui::flagged(entries@);
    let mut i: usize = 0;
    while i < entries.len()
        invariant
            i <= entries@.len(),
            all == crate::ui::flagged(entries@),
            first_directory(all, 0) == first_directory(all, i as int),
        decreases entries@.len() - i,
    {
        assert(all[i as int] == (entries@[i as int].0@, entries@[i as int].1));
        if entries[i].1 {
            return Ok(text::copy(&entries[i].0));
        }
        i = i + 1;
    }
    Err("FATAL: kernel version not found!".to_owned())
}

// ---------------------------------------------------------------------------
// The image

/// A step of filling the image.
pub enum InitStep {
    Say(String),
    /// Remove what is there, whatever comes of it.
    Remove(String),
    /// Make the directory, whatever comes of it.
    Create(String),
    /// Make a link to the first at the second, whatever comes of it.
    Link(String, String),
    /// Copy the first to the second, whatever comes of it.
    Copy(String, String),
    /// Let the file be run.
    MakeExecutable(String),
    /// Run a program, whatever comes of it.
    Run(String, Vec<String>),
}

/// A step with its texts taken as sequences of characters.
pub enum StepView {
    Say(Seq<char>),
    Remove(Seq<char>),
    Create(Seq<char>),
    Link(Seq<char>, Seq<char>),
    Copy(Seq<char>, Seq<char>),
    MakeExecutable(Seq<char>),
    Run(Seq<char>, Seq<Seq<char>>),
}

impl View for InitStep {
    type V = StepView;

    open spec fn view(&self) -> StepView {
        match self {
            InitStep::Say(m) => StepView::Say(m@),
            InitStep::Remove(p) => StepView::Remove(p@),
            InitStep::Create(p) => StepView::Create(p@),
            InitStep::Link(a, b) => StepView::Link(a@, b@),
            InitStep::Copy(a, b) => StepView::Copy(a@, b@),
            InitStep::MakeExecutable(p) => StepView::MakeExecutable(p@),
            InitStep::Run(p, args) => StepView::Run(p@, text::texts(args@)),
        }
    }
}

/// The steps of a list.
pub open spec fn steps(v: Seq<InitStep>) -> Seq<StepView> {
    v.map_values(|s: InitStep| s@)
}

/// The directories of the image.
pub open spec fn image_dirs() -> Seq<Seq<char>> {
    seq![
        "dev"@,
        "proc"@,
        "sys"@,
        "root"@,
        "run"@,
        "etc"@,
        "usr/bin"@,
        "usr/lib"@,
        "usr/lib/modules"@,
    ]
}

/// The links of the image, each with what it leads to.
pub open spec fn image_links() -> Seq<(Seq<char>, Seq<char>)> {
    seq![
        ("usr/bin"@, "bin"@),
        ("usr/bin"@, "sbin"@),
        ("usr/bin"@, "usr/sbin"@),
        ("usr/lib"@, "lib"@),
        ("usr/lib"@, "lib64"@),
    ]
}

/// The programs that busybox stands for.
pub open spec fn busybox_programs() -> Seq<Seq<char>> {
    seq![
        "sh"@,
        "bash"@,
        "cttyhack"@,
        "mount"@,
        "umount"@,
        "mdev"@,
        "insmod"@,
        "modprobe"@,
        "blkid"@,
        "losetup"@,
        "mknod"@,
        "ls"@,
        "cat"@,
        "echo"@,
        "clear"@,
        "mkdir"@,
        "rm"@,
        "cp"@,
        "mv"@,
        "reboot"@,
        "poweroff"@,
        "which"@,
    ]
}

/// The shared libraries that the image needs.
pub open spec fn image_libraries() -> Seq<Seq<char>> {
    seq!["ld-linux-x86-64.so.2"@, "libc.so.6"@, "libm.so.6"@, "libresolv.so.2"@]
}

fn program_list() -> (r: Vec<String>)
    ensures
        text::texts(r@) == busybox_programs(),
{
    let r = vec![
        "sh".to_owned(),
        "bash".to_owned(),
        "cttyhack".to_owned(),
        "mount".to_owned(),
        "umount".to_owned(),
        "mdev".to_owned(),
        "insmod".to_owned(),
        "modprobe".to_owned(),
        "blkid".to_owned(),
        "losetup".to_owned(),
        "mknod".to_owned(),
        "ls".to_owned(),
        "cat".to_owned(),
        "echo".to_owned(),
        "clear".to_owned(),
        "mkdir".to_owned(),
        "rm".to_owned(),
        "cp".to_owned(),
        "mv".to_owned(),
        "reboot".to_owned(),
        "poweroff".to_owned(),
        "which".to_owned(),
    ];
    assert(text::texts(r@) =~= busybox_programs());
    r
}

/// The shared libraries that the image needs.
pub fn library_list() -> (r: Vec<String>)
    ensures
        text::texts(r@) == image_libraries(),
{
    let r = vec![
        "ld-linux-x86-64.so.2".to_owned(),
        "libc.so.6".to_owned(),
        "libm.so.6".to_owned(),
        "libresolv.so.2".to_owned(),
    ];
    assert(text::texts(r@) =~= image_libraries());
    r
}

/// The steps that lay out the image: it is made anew, with its directories and links.
pub open spec fn layout_steps(ramdisk: Seq<char>) -> Seq<StepView> {
    seq![StepView::Remove(ramdisk)] + image_dirs().map_values(
        |d: Seq<char>| StepView::Create(path::joined(ramdisk, d)),
    ) + image_links().map_values(
        |l: (Seq<char>, Seq<char>)| StepView::Link(l.0, path::joined(ramdisk, l.1)),
    )
}

/// The steps that bring the modules of the kernel into the image.
pub open spec fn module_steps(
    rootfs: Seq<char>,
    ramdisk: Seq<char>,
    kernel: Seq<char>,
) -> Seq<StepView> {
    let kernel_dir = path::joined(path::joined(ramdisk, "usr/lib/modules"@), kernel);
    seq![
        StepView::Run(
            "cp"@,
            seq![
                "-ax"@,
                path::joined(rootfs, "usr/lib/modules"@),
                path::joined(ramdisk, "usr/lib/"@),
            ],
        ),
        StepView::Say("Uncompressing kernel modules...."@),
        StepView::Run(
            "sh"@,
            seq![
                "-c"@,
                "find "@ + kernel_dir + " -name '*.ko.zst' -exec unzstd -q --rm -f {} \\;"@,
            ],
        ),
        StepView::Say("Regenerating module dependency index...."@),
        StepView::Run("depmod"@, seq!["-a"@, "-b"@, ramdisk, kernel]),
    ]
}

/// The steps that make a program of busybox.
pub open spec fn program_steps(ramdisk: Seq<char>, program: Seq<char>) -> Seq<StepView> {
    let link = path::joined(path::joined(ramdisk, "usr/bin"@), program);
    seq![StepView::Remove(link), StepView::Link("busybox"@, link), StepView::MakeExecutable(link)]
}

/// The steps that make programs of busybox.
pub open spec fn programs_steps(ramdisk: Seq<char>, programs: Seq<Seq<char>>) -> Seq<StepView>
    decreases programs.len(),
{
    if programs.len() == 0 {
        seq![]
    } else {
        programs_steps(ramdisk, programs.drop_last()) + program_steps(ramdisk, programs.last())
    }
}

/// The steps that bring busybox into the image, if there is one.
pub open spec fn busybox_steps(ramdisk: Seq<char>, busybox: Option<Seq<char>>) -> Seq<StepView> {
    match busybox {
        Some(from) => seq![
            StepView::Say("Copying busybox to initramfs...."@),
            StepView::Copy(from, path::joined(ramdisk, "usr/bin/busybox"@)),
        ] + programs_steps(ramdisk, busybox_programs()),
        None => seq![],
    }
}

/// The steps that bring the libraries that are there into the image.
pub open spec fn library_steps(
    rootfs: Seq<char>,
    ramdisk: Seq<char>,
    libraries: Seq<Seq<char>>,
    present: Seq<bool>,
) -> Seq<StepView>
    decreases libraries.len(),
{
    if libraries.len() == 0 {
        seq![StepView::Say("Copying essential shared libraries to initramfs...."@)]
    } else {
        let rest = library_steps(rootfs, ramdisk, libraries.drop_last(), present);
        let k = libraries.len() - 1;
        if k < present.len() && present[k] {
            rest.push(
                StepView::Run(
                    "cp"@,
                    seq![
                        "-L"@,
                        path::joined(path::joined(rootfs, "usr/lib"@), libraries.last()),
                        path::joined(ramdisk, "usr/lib/"@),
                    ],
                ),
            )
        } else {
            rest
        }
    }
}

/// The steps that fill the image, up to its first program.
pub open spec fn image_steps(
    rootfs: Seq<char>,
    cache: Seq<char>,
    kernel: Seq<char>,
    busybox: Option<Seq<char>>,
    present: Seq<bool>,
) -> Seq<StepView> {
    let ramdisk = path::joined(cache, "ramdisk"@);
    layout_steps(ramdisk) + module_steps(rootfs, ramdisk, kernel) + busybox_steps(ramdisk, busybox)
        + library_steps(rootfs, ramdisk, image_libraries(), present)
}

fn push_step(out: &mut Vec<InitStep>, step: InitStep)
    ensures
        steps(final(out)@) == steps(old(out)@).push(step@),
{
    let ghost before = out@;
    let ghost sv = step@;
    out.push(step);
    assert(steps(out@) =~= steps(before).push(sv));
}

fn run(program: &str, args: Vec<String>) -> (r: InitStep)
    ensures
        r@ == StepView::Run(program@, text::texts(args@)),
{
    InitStep::Run(program.to_owned(), args)
}

fn push_layout(out: &mut Vec<InitStep>, ramdisk: &str)
    ensures
        steps(final(out)@) == steps(old(out)@) + layout_steps(ramdisk@),
{
    let ghost start = steps(out@);
    push_step(out, InitStep::Remove(ramdisk.to_owned()));
    push_step(out, InitStep::Create(path::join(ramdisk, "dev")));
    push_step(out, InitStep::Create(path::join(ramdisk, "proc")));
    push_step(out, InitStep::Create(path::join(ramdisk, "sys")));
    push_step(out, InitStep::Create(path::join(ramdisk, "root")));
    push_step(out, InitStep::Create(path::join(ramdisk, "run")));
    push_step(out, InitStep::Create(path::join(ramdisk, "etc")));
    push_step(out, InitStep::Create(path::join(ramdisk, "usr/bin")));
    push_step(out, InitStep::Create(path::join(ramdisk, "usr/lib")));
    push_step(out, InitStep::Create(path::join(ramdisk, "usr/lib/modules")));
    push_step(out, InitStep::Link("usr/bin".to_owned(), path::join(ramdisk, "bin")));
    push_step(out, InitStep::Link("usr/bin".to_owned(), path::join(ramdisk, "sbin")));
    push_step(out, InitStep::Link("usr/bin".to_owned(), path::join(ramdisk, "usr/sbin")));
    push_step(out, InitStep::Link("usr/lib".to_owned(), path::join(ramdisk, "lib")));
    push_step(out, InitStep::Link("usr/lib".to_owned(), path::join(ramdisk, "lib64")));
    assert(steps(out@) =~= start + layout_steps(ramdisk@));
}

fn push_modules(out: &mut Vec<InitStep>, rootfs: &str, ramdisk: &str, kernel: &str)
    ensures
        steps(final(out)@) == steps(old(out)@) + module_steps(rootfs@, ramdisk@, kernel@),
{
    let ghost start = steps(out@);
    let kernel_dir = path::join(&path::join(ramdisk, "usr/lib/modules"), kernel);
    let copy_args = vec![
        "-ax".to_owned(),
        path::join(rootfs, "usr/lib/modules"),
        path::join(ramdisk, "usr/lib/"),
    ];
    assert(text::texts(copy_args@) =~= seq![
        "-ax"@,
        path::joined(rootfs@, "usr/lib/modules"@),
        path::joined(ramdisk@, "usr/lib/"@),
    ]);
    let find_args = vec![
        "-c".to_owned(),
        text::join3(
            "find ",
            &kernel_dir,
            " -name '*.ko.zst' -exec unzstd -q --rm -f {} \\;",
        ),
    ];
    assert(text::texts(find_args@) =~= seq![
        "-c"@,
        "find "@ + kernel_dir@ + " -name '*.ko.zst' -exec unzstd -q --rm -f {} \\;"@,
    ]);
    let depmod_args = vec![
        "-a".to_owned(),
        "-b".to_owned(),
        ramdisk.to_owned(),
        kernel.to_owned(),
    ];
    assert(text::texts(depmod_args@) =~= seq!["-a"@, "-b"@, ramdisk@, kernel@]);
    push_step(out, run("cp", copy_args));
    push_step(out, InitStep::Say("Uncompressing kernel modules....".to_owned()));
    push_step(out, run("sh", find_args));
    push_step(out, InitStep::Say("Regenerating module dependency index....".to_owned()));
    push_step(out, run("depmod", depmod_args));
    assert(steps(out@) =~= start + module_steps(rootfs@, ramdisk@, kernel@));
}

fn push_busybox(out: &mut Vec<InitStep>, ramdisk: &str, busybox: &Option<String>)
    ensures
        steps(final(out)@) == steps(old(out)@) + busybox_steps(
            ramdisk@,
            crate::cli::opt_text(*busybox),
        ),
{
    let ghost start = steps(out@);
    match busybox {
        None => {
            assert(start + Seq::<StepView>::empty() =~= start);
        },
        Some(from) => {
            push_step(out, InitStep::Say("Copying busybox to initramfs....".to_owned()));
            push_step(
                out,
                InitStep::Copy(text::copy(from), path::join(ramdisk, "usr/bin/busybox")),
            );
            let ghost head = seq![
                StepView::Say("Copying busybox to initramfs...."@),
                StepView::Copy(from@, path::joined(ramdisk@, "usr/bin/busybox"@)),
            ];
            assert(steps(out@) =~= start + head);
            let programs = program_list();
            let ghost all = busybox_programs();
            let mut i: usize = 0;
            assert(all.take(0) =~= seq![]);
            assert(start + head + programs_steps(ramdisk@, all.take(0)) =~= start + head);
            while i < programs.len()
                invariant
                    i <= programs@.len(),
                    all == text::texts(programs@),
                    steps(out@) == start + head + programs_steps(ramdisk@, all.take(i as int)),
                decreases programs@.len() - i,
            {
                assert(all.take(i + 1).drop_last() =~= all.take(i as int));
                assert(all[i as int] == programs@[i as int]@);
                let ghost before = steps(out@);
                let link = path::join(&path::join(ramdisk, "usr/bin"), &programs[i]);
                push_step(out, InitStep::Remove(text::copy(&link)));
                push_step(out, InitStep::Link("busybox".to_owned(), text::copy(&link)));
                push_step(out, InitStep::MakeExecutable(link));
                assert(steps(out@) =~= before + program_steps(ramdisk@, all[i as int]));
                assert(steps(out@) =~= start + head + programs_steps(ramdisk@, all.take(i + 1)));
                i = i + 1;
            }
            assert(all.take(all.len() as int) =~= all);
            assert(steps(out@) =~= start + busybox_steps(ramdisk@, Some(from@)));
        },
    }
}

fn push_libraries(out: &mut Vec<InitStep>, rootfs: &str, ramdisk: &str, present: &Vec<bool>)
    ensures
        steps(final(out)@) == steps(old(out)@) + library_steps(
            rootfs@,
            ramdisk@,
            image_libraries(),
            present@,
        ),
{
    let ghost start = steps(out@);
    push_step(
        out,
        InitStep::Say("Copying essential shared libraries to initramfs....".to_owned()),
    );
    let libraries = library_list();
    let ghost all = image_libraries();
    let mut i: usize = 0;
    assert(all.take(0) =~= seq![]);
    assert(steps(out@) =~= start + library_steps(rootfs@, ramdisk@, all.take(0), present@));
    while i < libraries.len()
        invariant
            i <= libraries@.len(),
            all == text::texts(libraries@),
            steps(out@) == start + library_steps(
                rootfs@,
                ramdisk@,
                all.take(i as int),
                present@,
            ),
        decreases libraries@.len() - i,
    {
        let ghost done = library_steps(rootfs@, ramdisk@, all.take(i as int), present@);
        assert(all.take(i + 1).drop_last() =~= all.take(i as int));
        assert(all[i as int] == libraries@[i as int]@);
        if i < present.len() && present[i] {
            let args = vec![
                "-L".to_owned(),
                path::join(&path::join(rootfs, "usr/lib"), &libraries[i]),
                path::join(ramdisk, "usr/lib/"),
            ];
            assert(text::texts(args@) =~= seq![
                "-L"@,
                path::joined(path::joined(rootfs@, "usr/lib"@), all[i as int]),
                path::joined(ramdisk@, "usr/lib/"@),
            ]);
            let step = run("cp", args);
            let ghost sv = step@;
            push_step(out, step);
            assert((start + done).push(sv) =~= start + done.push(sv));
        }
        i = i + 1;
    }
    assert(all.take(all.len() as int) =~= all);
}

/// The steps that fill the image, up to its first program: given what stands
/// among the modules of the kernel, the busybox of the root if it has one, and
/// which of the libraries are there.
pub fn generate_liska_initramfs(
    rootfs: &str,
    cache: &str,
    entries: &Vec<(String, bool)>,
    busybox: &Option<String>,
    present: &Vec<bool>,
) -> (r: Result<Vec<InitStep>, String>)
    ensures
        match r {
            Ok(v) => first_directory(crate::ui::flagged(entries@), 0) matches Some(k) && steps(v@)
                == image_steps(rootfs@, cache@, k, crate::cli::opt_text(*busybox), present@),
            Err(e) => first_directory(crate::ui::flagged(entries@), 0) is None && e@
                == "FATAL: kernel version not found!"@,
        },
{
    let kernel = match find_kernel_version(entries) {
        Ok(k) => k,
        Err(e) => {
            return Err(e);
        },
    };
    let ramdisk = path::join(cache, "ramdisk");
    let mut out: Vec<InitStep> = Vec::new();
    push_layout(&mut out, &ramdisk);
    push_modules(&mut out, rootfs, &ramdisk, &kernel);
    push_busybox(&mut out, &ramdisk, busybox);
    push_libraries(&mut out, rootfs, &ramdisk, present);
    assert(steps(out@) =~= image_steps(
        rootfs@,
        cache@,
        kernel@,
        crate::cli::opt_text(*busybox),
        present@,
    ));
    Ok(out)
}

/// The busybox of a root: the one in its main directory, or else the other,
/// if that one is there.
pub fn find_busybox(rootfs: &str, main_exists: bool, other_exists: bool) -> (r: Option<String>)
    ensures
        crate::cli::opt_text(r) == (if main_exists {
            Some(path::joined(rootfs@, "usr/bin/busybox"@))
        } else if other_exists {
            Some(path::joined(rootfs@, "bin/busybox"@))
        } else {
            None
        }),
{
    if main_exists {
        Some(path::join(rootfs, "usr/bin/busybox"))
    } else if other_exists {
        Some(path::join(rootfs, "bin/busybox"))
    } else {
        None
    }
}

// ---------------------------------------------------------------------------
// The first program

/// The sources of the first program: those of the root if both are there,
/// else those of the running system.
pub fn template_paths(rootfs: &str, root_has_both: bool) -> (r: (String, String))
    ensures
        (r.0@, r.1@) == (if root_has_both {
            (
                path::joined(rootfs@, "etc/lkinit.d/init.rs"@),
                path::joined(rootfs@, "etc/lkinit.d/Cargo.toml"@),
            )
        } else {
            ("/etc/lkinit.d/init.rs"@, "/etc/lkinit.d/Cargo.toml"@)
        }),
{
    if root_has_both {
        (
            path::join(rootfs, "etc/lkinit.d/init.rs"),
            path::join(rootfs, "etc/lkinit.d/Cargo.toml"),
        )
    } else {
        ("/etc/lkinit.d/init.rs".to_owned(), "/etc/lkinit.d/Cargo.toml".to_owned())
    }
}

/// Where the first program is built.
pub fn build_dir(cache: &str) -> (r: String)
    ensures
        r@ == path::joined(cache@, "init"@),
{
    path::join(cache, "init")
}

/// The arguments of `cargo` that build the first program.
pub open spec fn cargo_args(build_dir: Seq<char>) -> Seq<Seq<char>> {
    seq![
        "build"@,
        "--manifest-path"@,
        path::joined(build_dir, "Cargo.toml"@),
        "--release"@,
        "--target"@,
        "x86_64-unknown-linux-musl"@,
    ]
}

/// The arguments of `cargo` that build the first program.
pub fn compile_init_template(build_dir: &str) -> (r: Vec<String>)
    ensures
        text::texts(r@) == cargo_args(build_dir@),
{
    let r = vec![
        "build".to_owned(),
        "--manifest-path".to_owned(),
        path::join(build_dir, "Cargo.toml"),
        "--release".to_owned(),
        "--target".to_owned(),
        "x86_64-unknown-linux-musl".to_owned(),
    ];
    assert(text::texts(r@) =~= cargo_args(build_dir@));
    r
}

/// Where the first program is once it is built.
pub fn built_program(build_dir: &str) -> (r: String)
    ensures
        r@ == path::joined(
            build_dir@,
            "target/x86_64-unknown-linux-musl/release/init"@,
        ),
{
    path::join(build_dir, "target/x86_64-unknown-linux-musl/release/init")
}

// ---------------------------------------------------------------------------
// Packing

/// What is below the image.
pub struct TreeEntry {
    /// The path below the image; none if it cannot be had.
    pub rel: Option<String>,
    pub is_file: bool,
    pub size: u64,
}

/// The sizes of files added up.
pub open spec fn total_size(entries: Seq<TreeEntry>) -> nat
    decreases entries.len(),
{
    if entries.len() == 0 {
        0
    } else {
        total_size(entries.drop_last()) + (if entries.last().is_file {
            entries.last().size as nat
        } else {
            0nat
        })
    }
}

/// The paths below the image.
pub open spec fn entry_paths(entries: Seq<TreeEntry>) -> Seq<Seq<char>>
    decreases entries.len(),
{
    if entries.len() == 0 {
        seq![]
    } else {
        match entries.last().rel {
            Some(p) => entry_paths(entries.drop_last()).push(p@),
            None => entry_paths(entries.drop_last()),
        }
    }
}

proof fn total_size_grows(entries: Seq<TreeEntry>, k: int)
    requires
        0 <= k <= entries.len(),
    ensures
        total_size(entries.take(k)) <= total_size(entries),
    decreases entries.len(),
{
    if k == entries.len() {
        assert(entries.take(k) =~= entries);
    } else {
        total_size_grows(entries.drop_last(), k);
        assert(entries.drop_last().take(k) =~= entries.take(k));
    }
}

/// The paths to pack, and how much there is to pack; it is at least one, so
/// that progress can be shown.
pub fn pack_initramfs_with_progress(entries: &Vec<TreeEntry>) -> (r: (Vec<String>, u64))
    requires
        total_size(entries@) <= u64::MAX,
    ensures
        text::texts(r.0@) == entry_paths(entries@),
        r.1 == (if total_size(entries@) == 0 {
            1
        } else {
            total_size(entries@)
        }),
{
    let mut paths: Vec<String> = Vec::new();
    let mut total: u64 = 0;
    let mut i: usize = 0;
    assert(entries@.take(0) =~= seq![]);
    assert(text::texts(paths@) =~= seq![]);
    while i < entries.len()
        invariant
            i <= entries@.len(),
            total_size(entries@) <= u64::MAX,
            text::texts(paths@) == entry_paths(entries@.take(i as int)),
            total == total_size(entries@.take(i as int)),
        decreases entries@.len() - i,
    {
        assert(entries@.take(i + 1).drop_last() =~= entries@.take(i as int));
        proof {
            total_size_grows(entries@, i + 1);
        }
        if let Some(p) = &entries[i].rel {
            let ghost before = paths@;
            paths.push(text::copy(p));
            assert(text::texts(paths@) =~= text::texts(before).push(p@));
        }
        if entries[i].is_file {
            total = total + entries[i].size;
        }
        i = i + 1;
    }
    assert(entries@.take(entries@.len() as int) =~= entries@);
    if total == 0 {
        total = 1;
    }
    (paths, total)
}

// ---------------------------------------------------------------------------
// What an image holds

proof fn libraries_among(
    rootfs: Seq<char>,
    ramdisk: Seq<char>,
    libraries: Seq<Seq<char>>,
    present: Seq<bool>,
    step: StepView,
)
    ensures
        library_steps(rootfs, ramdisk, libraries, present).contains(step) <==> (step
            == StepView::Say("Copying essential shared libraries to initramfs...."@) || exists|
            k: int,
        |
            0 <= k < libraries.len() && k < present.len() && present[k] && step == StepView::Run(
                "cp"@,
                seq![
                    "-L"@,
                    path::joined(path::joined(rootfs, "usr/lib"@), #[trigger] libraries[k]),
                    path::joined(ramdisk, "usr/lib/"@),
                ],
            )),
    decreases libraries.len(),
{
    let all = library_steps(rootfs, ramdisk, libraries, present);
    let said = StepView::Say("Copying essential shared libraries to initramfs...."@);
    if libraries.len() == 0 {
        assert(all[0] == said);
    } else {
        let init = libraries.drop_last();
        let rest = library_steps(rootfs, ramdisk, init, present);
        let n = libraries.len() - 1;
        libraries_among(rootfs, ramdisk, init, present, step);
        assert(forall|k: int| 0 <= k < init.len() ==> init[k] == #[trigger] libraries[k]);
        if rest.contains(step) {
            let i = choose|i: int| 0 <= i < rest.len() && rest[i] == step;
            assert(all[i] == step);
            if step != said {
                let k = choose|k: int|
                    0 <= k < init.len() && k < present.len() && present[k] && step
                        == StepView::Run(
                        "cp"@,
                        seq![
                            "-L"@,
                            path::joined(path::joined(rootfs, "usr/lib"@), #[trigger] init[k]),
                            path::joined(ramdisk, "usr/lib/"@),
                        ],
                    );
                assert(libraries[k] == init[k]);
            }
        }
        if n < present.len() && present[n] {
            let copy = StepView::Run(
                "cp"@,
                seq![
                    "-L"@,
                    path::joined(path::joined(rootfs, "usr/lib"@), libraries[n]),
                    path::joined(ramdisk, "usr/lib/"@),
                ],
            );
            assert(all[rest.len() as int] == copy);
        }
        if all.contains(step) {
            let i = choose|i: int| 0 <= i < all.len() && all[i] == step;
            if i < rest.len() {
                assert(rest[i] == step);
            } else {
                assert(libraries[n] == libraries.last());
            }
        }
        if exists|k: int|
            0 <= k < libraries.len() && k < present.len() && present[k] && step == StepView::Run(
                "cp"@,
                seq![
                    "-L"@,
                    path::joined(path::joined(rootfs, "usr/lib"@), #[trigger] libraries[k]),
                    path::joined(ramdisk, "usr/lib/"@),
                ],
            ) {
            let k = choose|k: int|
                0 <= k < libraries.len() && k < present.len() && present[k] && step
                    == StepView::Run(
                    "cp"@,
                    seq![
                        "-L"@,
                        path::joined(path::joined(rootfs, "usr/lib"@), #[trigger] libraries[k]),
                        path::joined(ramdisk, "usr/lib/"@),
                    ],
                );
            if k < n {
                assert(init[k] == libraries[k]);
            }
        }
    }
}

/// The steps that fill an image are those of its parts, one after the other.
proof fn parts_of_an_image(
    rootfs: Seq<char>,
    cache: Seq<char>,
    kernel: Seq<char>,
    busybox: Option<Seq<char>>,
    present: Seq<bool>,
    step: StepView,
)
    ensures
        ({
            let ramdisk = path::joined(cache, "ramdisk"@);
            image_steps(rootfs, cache, kernel, busybox, present).contains(step) <==> layout_steps(
                ramdisk,
            ).contains(step) || module_steps(rootfs, ramdisk, kernel).contains(step)
                || busybox_steps(ramdisk, busybox).contains(step) || library_steps(
                rootfs,
                ramdisk,
                image_libraries(),
                present,
            ).contains(step)
        }),
{
    let ramdisk = path::joined(cache, "ramdisk"@);
    let a = layout_steps(ramdisk);
    let b = module_steps(rootfs, ramdisk, kernel);
    let c = busybox_steps(ramdisk, busybox);
    let d = library_steps(rootfs, ramdisk, image_libraries(), present);
    either_holds(a, b, step);
    either_holds(a + b, c, step);
    either_holds(a + b + c, d, step);
}

proof fn either_holds(a: Seq<StepView>, b: Seq<StepView>, step: StepView)
    ensures
        (a + b).contains(step) <==> a.contains(step) || b.contains(step),
{
    let all = a + b;
    if a.contains(step) {
        let i = choose|i: int| 0 <= i < a.len() && a[i] == step;
        assert(all[i] == step);
    }
    if b.contains(step) {
        let i = choose|i: int| 0 <= i < b.len() && b[i] == step;
        assert(all[a.len() + i] == step);
    }
    if all.contains(step) {
        let i = choose|i: int| 0 <= i < all.len() && all[i] == step;
        if i < a.len() {
            assert(a[i] == step);
        } else {
            assert(b[i - a.len()] == step);
        }
    }
}

/// Each of the essential libraries that the root has is copied from there into
/// the image.
pub proof fn present_libraries_are_copied(
    rootfs: Seq<char>,
    cache: Seq<char>,
    kernel: Seq<char>,
    busybox: Option<Seq<char>>,
    present: Seq<bool>,
    k: int,
)
    requires
        present.len() == image_libraries().len(),
        0 <= k < present.len(),
        present[k],
    ensures
        image_steps(rootfs, cache, kernel, busybox, present).contains(
            StepView::Run(
                "cp"@,
                seq![
                    "-L"@,
                    path::joined(path::joined(rootfs, "usr/lib"@), image_libraries()[k]),
                    path::joined(path::joined(cache, "ramdisk"@), "usr/lib/"@),
                ],
            ),
        ),
{
    let ramdisk = path::joined(cache, "ramdisk"@);
    let libraries = image_libraries();
    let copy = StepView::Run(
        "cp"@,
        seq![
            "-L"@,
            path::joined(path::joined(rootfs, "usr/lib"@), libraries[k]),
            path::joined(ramdisk, "usr/lib/"@),
        ],
    );
    libraries_among(rootfs, ramdisk, libraries, present, copy);
    parts_of_an_image(rootfs, cache, kernel, busybox, present, copy);
}

proof fn programs_run_nothing(ramdisk: Seq<char>, programs: Seq<Seq<char>>)
    ensures
        forall|i: int|
            0 <= i < programs_steps(ramdisk, programs).len() ==> !(#[trigger] programs_steps(
                ramdisk,
                programs,
            )[i] is Run),
    decreases programs.len(),
{
    if programs.len() > 0 {
        programs_run_nothing(ramdisk, programs.drop_last());
    }
}

/// No library is copied into an image but the essential ones that the root
/// has.
pub proof fn no_other_library_is_copied(
    rootfs: Seq<char>,
    cache: Seq<char>,
    kernel: Seq<char>,
    busybox: Option<Seq<char>>,
    present: Seq<bool>,
    from: Seq<char>,
    to: Seq<char>,
)
    requires
        image_steps(rootfs, cache, kernel, busybox, present).contains(
            StepView::Run("cp"@, seq!["-L"@, from, to]),
        ),
    ensures
        exists|j: int|
            0 <= j < image_libraries().len() && j < present.len() && present[j] && from
                == path::joined(
                path::joined(rootfs, "usr/lib"@),
                #[trigger] image_libraries()[j],
            ),
        to == path::joined(path::joined(cache, "ramdisk"@), "usr/lib/"@),
{
    reveal_strlit("-L");
    reveal_strlit("-ax");
    reveal_strlit("cp");
    reveal_strlit("sh");
    reveal_strlit("depmod");
    let ramdisk = path::joined(cache, "ramdisk"@);
    let libraries = image_libraries();
    let args = seq!["-L"@, from, to];
    let step = StepView::Run("cp"@, args);
    parts_of_an_image(rootfs, cache, kernel, busybox, present, step);
    programs_run_nothing(ramdisk, busybox_programs());
    assert(!layout_steps(ramdisk).contains(step));
    assert(!busybox_steps(ramdisk, busybox).contains(step));
    assert(!module_steps(rootfs, ramdisk, kernel).contains(step)) by {
        let other = seq![
            "-ax"@,
            path::joined(rootfs, "usr/lib/modules"@),
            path::joined(ramdisk, "usr/lib/"@),
        ];
        assert(args[0] != other[0]) by {
            assert("-L"@.len() != "-ax"@.len());
        }
        assert("cp"@.len() != "depmod"@.len());
        assert("cp"@[0] != "sh"@[0]);
    }
    libraries_among(rootfs, ramdisk, libraries, present, step);
    let j = choose|j: int|
        0 <= j < libraries.len() && j < present.len() && present[j] && step == StepView::Run(
            "cp"@,
            seq![
                "-L"@,
                path::joined(path::joined(rootfs, "usr/lib"@), #[trigger] libraries[j]),
                path::joined(ramdisk, "usr/lib/"@),
            ],
        );
    let own = seq![
        "-L"@,
        path::joined(path::joined(rootfs, "usr/lib"@), libraries[j]),
        path::joined(ramdisk, "usr/lib/"@),
    ];
    assert(args[1] == own[1]);
    assert(args[2] == own[2]);
}

proof fn programs_among(ramdisk: Seq<char>, programs: Seq<Seq<char>>, k: int)
    requires
        0 <= k < programs.len(),
    ensures
        ({
            let link = path::joined(path::joined(ramdisk, "usr/bin"@), programs[k]);
            let all = programs_steps(ramdisk, programs);
            all.contains(StepView::Link("busybox"@, link)) && all.contains(
                StepView::MakeExecutable(link),
            )
        }),
    decreases programs.len(),
{
    let init = programs.drop_last();
    let rest = programs_steps(ramdisk, init);
    let own = program_steps(ramdisk, programs.last());
    let link = path::joined(path::joined(ramdisk, "usr/bin"@), programs[k]);
    either_holds(rest, own, StepView::Link("busybox"@, link));
    either_holds(rest, own, StepView::MakeExecutable(link));
    if k < init.len() {
        assert(init[k] == programs[k]);
        programs_among(ramdisk, init, k);
    } else {
        assert(own[1] == StepView::Link("busybox"@, link));
        assert(own[2] == StepView::MakeExecutable(link));
    }
}

/// If the root has a busybox, it is copied into the image, and each of its
/// programs is there under its own name.
pub proof fn busybox_stands_for_its_programs(
    rootfs: Seq<char>,
    cache: Seq<char>,
    kernel: Seq<char>,
    busybox: Seq<char>,
    present: Seq<bool>,
    k: int,
)
    requires
        0 <= k < busybox_programs().len(),
    ensures
        ({
            let ramdisk = path::joined(cache, "ramdisk"@);
            let link = path::joined(path::joined(ramdisk, "usr/bin"@), busybox_programs()[k]);
            let all = image_steps(rootfs, cache, kernel, Some(busybox), present);
            &&& all.contains(StepView::Copy(busybox, path::joined(ramdisk, "usr/bin/busybox"@)))
            &&& all.contains(StepView::Link("busybox"@, link))
            &&& all.contains(StepView::MakeExecutable(link))
        }),
{
    let ramdisk = path::joined(cache, "ramdisk"@);
    let programs = busybox_programs();
    let link = path::joined(path::joined(ramdisk, "usr/bin"@), programs[k]);
    let head = seq![
        StepView::Say("Copying busybox to initramfs...."@),
        StepView::Copy(busybox, path::joined(ramdisk, "usr/bin/busybox"@)),
    ];
    let copy = StepView::Copy(busybox, path::joined(ramdisk, "usr/bin/busybox"@));
    let linked = StepView::Link("busybox"@, link);
    let marked = StepView::MakeExecutable(link);
    programs_among(ramdisk, programs, k);
    assert(head[1] == copy);
    either_holds(head, programs_steps(ramdisk, programs), copy);
    either_holds(head, programs_steps(ramdisk, programs), linked);
    either_holds(head, programs_steps(ramdisk, programs), marked);
    parts_of_an_image(rootfs, cache, kernel, Some(busybox), present, copy);
    parts_of_an_image(rootfs, cache, kernel, Some(busybox), present, linked);
    parts_of_an_image(rootfs, cache, kernel, Some(busybox), present, marked);
}

/// An image is begun anew; each of its directories is made in it, each of its
/// links leads to the directory that it stands for, and the modules of the
/// kernel are copied from the root and indexed for that kernel.
pub proof fn the_layout_is_made(
    rootfs: Seq<char>,
    cache: Seq<char>,
    kernel: Seq<char>,
    busybox: Option<Seq<char>>,
    present: Seq<bool>,
    d: int,
    l: int,
)
    requires
        0 <= d < image_dirs().len(),
        0 <= l < image_links().len(),
    ensures
        ({
            let ramdisk = path::joined(cache, "ramdisk"@);
            let all = image_steps(rootfs, cache, kernel, busybox, present);
            &&& all[0] == StepView::Remove(ramdisk)
            &&& all[1 + d] == StepView::Create(path::joined(ramdisk, image_dirs()[d]))
            &&& all[1 + image_dirs().len() + l] == StepView::Link(
                image_links()[l].0,
                path::joined(ramdisk, image_links()[l].1),
            )
            &&& all.contains(
                StepView::Run(
                    "cp"@,
                    seq![
                        "-ax"@,
                        path::joined(rootfs, "usr/lib/modules"@),
                        path::joined(ramdisk, "usr/lib/"@),
                    ],
                ),
            )
            &&& all.contains(StepView::Run("depmod"@, seq!["-a"@, "-b"@, ramdisk, kernel]))
        }),
{
    let ramdisk = path::joined(cache, "ramdisk"@);
    let b = module_steps(rootfs, ramdisk, kernel);
    let copied = StepView::Run(
        "cp"@,
        seq![
            "-ax"@,
            path::joined(rootfs, "usr/lib/modules"@),
            path::joined(ramdisk, "usr/lib/"@),
        ],
    );
    let indexed = StepView::Run("depmod"@, seq!["-a"@, "-b"@, ramdisk, kernel]);
    assert(b[0] == copied);
    assert(b[4] == indexed);
    parts_of_an_image(rootfs, cache, kernel, busybox, present, copied);
    parts_of_an_image(rootfs, cache, kernel, busybox, present, indexed);
    let a = layout_steps(ramdisk);
    assert(a[0] == StepView::Remove(ramdisk));
    assert(a[1 + d] == StepView::Create(path::joined(ramdisk, image_dirs()[d])));
}

/// The kernel of an image is the first directory among the modules of the
/// root; without one there is none.
pub proof fn the_first_directory_is_the_kernel(entries: Seq<(Seq<char>, bool)>, i: int)
    requires
        0 <= i <= entries.len(),
        forall|k: int| 0 <= k < i ==> !(#[trigger] entries[k]).1,
        i < entries.len() ==> entries[i].1,
    ensures
        first_directory(entries, 0) == (if i < entries.len() {
            Some(entries[i].0)
        } else {
            None
        }),
{
    directory_from(entries, 0, i);
}

proof fn directory_from(entries: Seq<(Seq<char>, bool)>, k: int, i: int)
    requires
        0 <= k <= i <= entries.len(),
        forall|n: int| 0 <= n < i ==> !(#[trigger] entries[n]).1,
        i < entries.len() ==> entries[i].1,
    ensures
        first_directory(entries, k) == (if i < entries.len() {
            Some(entries[i].0)
        } else {
            None
        }),
    decreases i - k,
{
    if k < i {
        assert(!entries[k].1);
        directory_from(entries, k + 1, i);
    }
}

/// What is packed is every entry of the tree that has a path, in order, and
/// its size is that of the files.
pub proof fn every_entry_is_packed(entries: Seq<TreeEntry>, more: Seq<TreeEntry>)
    ensures
        entry_paths(entries + more) == entry_paths(entries) + entry_paths(more),
        total_size(entries + more) == total_size(entries) + total_size(more),
        more.len() == 1 ==> entry_paths(more) == (match more[0].rel {
            Some(p) => seq![p@],
            None => seq![],
        }) && total_size(more) == (if more[0].is_file {
            more[0].size as nat
        } else {
            0nat
        }),
    decreases more.len(),
{
    if more.len() == 0 {
        assert(entries + more =~= entries);
        assert(entry_paths(entries) + entry_paths(more) =~= entry_paths(entries));
    } else {
        every_entry_is_packed(entries, more.drop_last());
        assert((entries + more).drop_last() =~= entries + more.drop_last());
        assert((entries + more).last() == more.last());
        assert(entry_paths(entries + more) =~= entry_paths(entries) + entry_paths(more));
        if more.len() == 1 {
            assert(more.drop_last() =~= seq![]);
            assert(entry_paths(more.drop_last()) =~= seq![]);
            assert(total_size(more.drop_last()) == 0);
            assert(more.last() == more[0]);
            assert(entry_paths(more) =~= (match more[0].rel {
                Some(p) => seq![p@],
                None => seq![],
            }));
        }
    }
}

/// The root and the image are what is given behind their options, in either
/// order, and otherwise what is taken without them.
pub proof fn options_are_followed_by_their_values(
    program: Seq<char>,
    given_root: Seq<char>,
    given_image: Seq<char>,
    root: Seq<char>,
    image: Seq<char>,
)
    ensures
        requested(seq![program], 1, root, image) == (root, image),
        requested(seq![program, "--root"@, given_root], 1, root, image) == (given_root, image),
        requested(seq![program, "--output"@, given_image], 1, root, image) == (root, given_image),
        requested(
            seq![program, "--root"@, given_root, "--output"@, given_image],
            1,
            root,
            image,
        ) == (given_root, given_image),
        requested(
            seq![program, "--output"@, given_image, "--root"@, given_root],
            1,
            root,
            image,
        ) == (given_root, given_image),
{
    reveal_strlit("--root");
    reveal_strlit("--output");
    reveal_with_fuel(requested, 4);
    assert("--root"@.len() != "--output"@.len());
}

} // verus!
