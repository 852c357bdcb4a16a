//! The command line of the machine emulator that runs a guest. It assumes the
//! file layout of a run directory and is run from inside it.
use vstd::prelude::*;

use crate::config::{ExposedDirectory, MachineConfig};
use crate::text::strings_view;

verus! {

pub const QEMU_CMD: &'static str = "/usr/bin/qemu-system-x86_64";

pub open spec fn digit_char(d: nat) -> char {
    if d == 0 { '0' } else if d == 1 { '1' } else if d == 2 { '2' } else if d == 3 { '3' }
    else if d == 4 { '4' } else if d == 5 { '5' } else if d == 6 { '6' } else if d == 7 { '7' }
    else if d == 8 { '8' } else { '9' }
}

/// `n` in decimal, without leading zeros.
pub open spec fn decimal(n: nat) -> Seq<char>
    decreases n,
{
    if n < 10 {
        seq![digit_char(n)]
    } else {
        decimal(n / 10).push(digit_char(n % 10))
    }
}

fn digit(d: u64) -> (r: &'static str)
    requires
        d < 10,
    ensures
        r@ == seq![digit_char(d as nat)],
{
    proof {
        reveal_strlit("0");
        reveal_strlit("1");
        reveal_strlit("2");
        reveal_strlit("3");
        reveal_strlit("4");
        reveal_strlit("5");
        reveal_strlit("6");
        reveal_strlit("7");
        reveal_strlit("8");
        reveal_strlit("9");
    }
    let r = if d == 0 { "0" } else if d == 1 { "1" } else if d == 2 { "2" } else if d == 3 { "3" }
    else if d == 4 { "4" } else if d == 5 { "5" } else if d == 6 { "6" } else if d == 7 { "7" }
    else if d == 8 { "8" } else { "9" };
    assert(r@ =~= seq![digit_char(d as nat)]);
    r
}

/// `n` in decimal.
pub fn decimal_string(n: u64) -> (r: String)
    ensures
        r@ == decimal(n as nat),
    decreases n,
{
    if n < 10 {
        digit(n).to_owned()
    } else {
        let mut s = decimal_string(n / 10);
        s.append(digit(n % 10));
        assert(s@ =~= decimal((n / 10) as nat).push(digit_char((n % 10) as nat)));
        s
    }
}

/// The fixed arguments: devices, the boot log, the shell socket and the three
/// drives of the run directory.
pub open spec fn fixed_args() -> Seq<Seq<char>> {
    seq![
        "-enable-kvm"@,
        "-nodefaults"@,
        "-nographic"@,
        "-M"@, "type=q35,accel=kvm,smm=on"@,
        "-cpu"@, "max"@,
        "-global"@, "ICH9-LPC.disable_s3=1"@,
        "-device"@, "virtio-net-pci,netdev=uplink"@,
        "-netdev"@, "user,id=uplink,ipv4=on,ipv6=on,ipv6-net=::/0"@,
        "-object"@, "rng-random,filename=/dev/urandom,id=rng0"@,
        "-device"@, "virtio-rng-pci,rng=rng0,id=rng-device0"@,
        "-device"@, "isa-serial,chardev=bootlog"@,
        "-device"@, "isa-serial,chardev=telnet"@,
        "-chardev"@, "file,id=bootlog,path=log.txt"@,
        "-chardev"@, "socket,id=telnet,server=on,wait=off,path=shell.sock"@,
        "-drive"@, "if=virtio,format=raw,discard=unmap,cache.writeback=on,cache.direct=on,cache.no-flush=on,file=disk.img"@,
        "-drive"@, "if=virtio,format=raw,discard=unmap,cache.writeback=on,cache.direct=on,cache.no-flush=on,file=cloud-init.img"@,
        "-drive"@, "if=virtio,format=raw,discard=unmap,cache.writeback=on,cache.direct=on,cache.no-flush=on,file=job-config.img"@
    ]
}

/// The `-virtfs` value that shares directory `d` with the guest.
pub open spec fn virtfs_spec(d: ExposedDirectory) -> Seq<char> {
    "local,security_model=none,mount_tag="@ + d.tag@ + ",readonly="@ + (if d.writable {
        "off"@
    } else {
        "on"@
    }) + ",path="@ + d.path@
}

/// `-virtfs <value>` for each shared directory, in order.
pub open spec fn virtfs_args(dirs: Seq<ExposedDirectory>) -> Seq<Seq<char>>
    decreases dirs.len(),
{
    if dirs.len() == 0 {
        Seq::empty()
    } else {
        virtfs_args(dirs.drop_last()) + seq!["-virtfs"@, virtfs_spec(dirs.last())]
    }
}

/// The emulator's arguments: memory in MiB, CPU count, the fixed arguments,
/// then the shared directories.
pub open spec fn qemu_args_spec(mc: MachineConfig) -> Seq<Seq<char>> {
    seq!["-m"@, decimal((mc.ram.0 / 1048576) as nat), "-smp"@, decimal(mc.cpus as nat)] + fixed_args()
        + virtfs_args(mc.shared@)
}

fn push_all(r: &mut Vec<String>, items: &[&str])
    ensures
        strings_view(final(r)@) == strings_view(old(r)@) + items@.map_values(|s: &str| s@),
{
    let mut i: usize = 0;
    let ghost start = strings_view(r@);
    while i < items.len()
        invariant
            i <= items@.len(),
            strings_view(r@) == start + items@.map_values(|s: &str| s@).take(i as int),
        decreases items@.len() - i,
    {
        let ghost prev = strings_view(r@);
        r.push(items[i].to_owned());
        assert(strings_view(r@) =~= prev.push(items@[i as int]@));
        assert(items@.map_values(|s: &str| s@).take(i + 1) =~= items@.map_values(|s: &str| s@).take(
            i as int,
        ).push(items@[i as int]@));
        i = i + 1;
    }
    assert(items@.map_values(|s: &str| s@).take(i as int) =~= items@.map_values(|s: &str| s@));
}

/// The arguments to start the emulator with for a machine configured by `mc`.
pub fn qemu_args(mc: &MachineConfig) -> (r: Vec<String>)
    ensures
        strings_view(r@) == qemu_args_spec(*mc),
{
    let mut r: Vec<String> = Vec::new();
    r.push("-m".to_owned());
    r.push(decimal_string(mc.ram.megabytes()));
    r.push("-smp".to_owned());
    r.push(decimal_string(mc.cpus as u64));
    let ghost head = strings_view(r@);
    assert(head =~= seq!["-m"@, decimal((mc.ram.0 / 1048576) as nat), "-smp"@, decimal(mc.cpus as nat)]);
    let fixed: [&str; 31] = [
        "-enable-kvm",
        "-nodefaults",
        "-nographic",
        "-M", "type=q35,accel=kvm,smm=on",
        "-cpu", "max",
        "-global", "ICH9-LPC.disable_s3=1",
        "-device", "virtio-net-pci,netdev=uplink",
        "-netdev", "user,id=uplink,ipv4=on,ipv6=on,ipv6-net=::/0",
        "-object", "rng-random,filename=/dev/urandom,id=rng0",
        "-device", "virtio-rng-pci,rng=rng0,id=rng-device0",
        "-device", "isa-serial,chardev=bootlog",
        "-device", "isa-serial,chardev=telnet",
        "-chardev", "file,id=bootlog,path=log.txt",
        "-chardev", "socket,id=telnet,server=on,wait=off,path=shell.sock",
        "-drive", "if=virtio,format=raw,discard=unmap,cache.writeback=on,cache.direct=on,cache.no-flush=on,file=disk.img",
        "-drive", "if=virtio,format=raw,discard=unmap,cache.writeback=on,cache.direct=on,cache.no-flush=on,file=cloud-init.img",
        "-drive", "if=virtio,format=raw,discard=unmap,cache.writeback=on,cache.direct=on,cache.no-flush=on,file=job-config.img",
    ];
    assert(fixed@.map_values(|s: &str| s@) =~= fixed_args());
    push_all(&mut r, fixed.as_slice());
    let ghost before_virtfs = strings_view(r@);
    let mut i: usize = 0;
    assert(mc.shared@.take(0) =~= Seq::<ExposedDirectory>::empty());
    assert(before_virtfs + virtfs_args(mc.shared@.take(0)) =~= before_virtfs);
    while i < mc.shared.len()
        invariant
            i <= mc.shared@.len(),
            strings_view(r@) == before_virtfs + virtfs_args(mc.shared@.take(i as int)),
        decreases mc.shared@.len() - i,
    {
        let d = &mc.shared[i];
        let mut value = "local,security_model=none,mount_tag=".to_owned();
        value.append(d.tag.as_str());
        value.append(",readonly=");
        value.append(if d.writable {
            "off"
        } else {
            "on"
        });
        value.append(",path=");
        value.append(d.path.as_str());
        assert(value@ == virtfs_spec(*d));
        let ghost prev = strings_view(r@);
        r.push("-virtfs".to_owned());
        r.push(value);
        assert(strings_view(r@) =~= prev + seq!["-virtfs"@, virtfs_spec(*d)]);
        assert(mc.shared@.take(i + 1).drop_last() =~= mc.shared@.take(i as int));
        assert(mc.shared@.take(i + 1).last() == *d);
        assert(strings_view(r@) =~= before_virtfs + virtfs_args(mc.shared@.take(i + 1)));
        i = i + 1;
    }
    assert(mc.shared@.take(i as int) =~= mc.shared@);
    r
}

} // verus!
