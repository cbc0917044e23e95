use nfsserve::context::RPCContext;
use nfsserve::mount_handlers::mountres3_ok;
use nfsserve::nfs::{
    diropargs3, fattr3, fileid3, filename3, ftype3, nfs_fh3, nfspath3, nfsstat3, nfsstring,
    nfstime3, post_op_attr, post_op_fh3, pre_op_attr, sattr3, set_atime, set_gid3, set_mode3,
    set_mtime, set_size3, set_uid3, specdata3, symlinkdata3, wcc_data, fsinfo3,
};
use nfsserve::nfs_handlers::{
    createmode3, entry3, entryplus3, sattrguard3, stable_how, ACCESS3args, FSSTAT3resok,
    MKDIR3args, PATHCONF3resok, READ3args, READ3resok, READDIR3args, READDIRPLUS3args,
    RENAME3args, SETATTR3args, SYMLINK3args, WRITE3args, WRITE3resok,
};
use nfsserve::portmap::mapping;
use nfsserve::rpc::{
    accept_body, auth_flavor, auth_unix, call_body, mismatch_info, opaque_auth, rejected_reply,
    reply_body, rpc_body, rpc_msg,
};
use nfsserve::rpcwire::{handle_rpc, write_fragment, RpcError};
use nfsserve::vfs::{
    generation_serverid, read_range, DirEntry, NFSFileSystem, ReadDirResult, VFSCapabilities,
};
use nfsserve::xdr::{ByteReader, XDR};
use std::sync::{Arc, Mutex};

const NFS: u32 = 100003;
const PORTMAP: u32 = 100000;
const MOUNT: u32 = 100005;
const GENERATION: u64 = 0x0000_018f_1234_5678;

#[derive(Clone)]
struct Node {
    id: fileid3,
    parent: fileid3,
    name: Vec<u8>,
    attr: fattr3,
    data: Vec<u8>,
}

struct State {
    nodes: Vec<Node>,
    next_id: fileid3,
    clock: u32,
    calls: Vec<String>,
}

/// A file system in memory. Its directories list their entries in the order
/// in which they were made.
struct MemFs {
    state: Mutex<State>,
    caps: VFSCapabilities,
}

fn attr_of(id: fileid3, ftype: ftype3, size: u64, time: u32) -> fattr3 {
    fattr3 {
        ftype,
        mode: 0o755,
        nlink: 1,
        uid: 507,
        gid: 507,
        size,
        used: size,
        rdev: specdata3 { specdata1: 0, specdata2: 0 },
        fsid: 0,
        fileid: id,
        atime: nfstime3 { seconds: time, nseconds: 0 },
        mtime: nfstime3 { seconds: time, nseconds: 0 },
        ctime: nfstime3 { seconds: time, nseconds: 0 },
    }
}

impl MemFs {
    fn new(caps: VFSCapabilities) -> MemFs {
        let root = Node {
            id: 1,
            parent: 0,
            name: Vec::new(),
            attr: attr_of(1, ftype3::NF3DIR, 0, 100),
            data: Vec::new(),
        };
        MemFs {
            state: Mutex::new(State { nodes: vec![root], next_id: 2, clock: 100, calls: Vec::new() }),
            caps,
        }
    }

    fn add(&self, parent: fileid3, id: fileid3, name: &str, ftype: ftype3, data: &[u8]) {
        let mut st = self.state.lock().unwrap();
        let time = st.clock;
        st.nodes.push(Node {
            id,
            parent,
            name: name.as_bytes().to_vec(),
            attr: attr_of(id, ftype, data.len() as u64, time),
            data: data.to_vec(),
        });
        if st.next_id <= id {
            st.next_id = id + 1;
        }
    }

    fn calls(&self) -> Vec<String> {
        self.state.lock().unwrap().calls.clone()
    }

    fn make(&self, dirid: fileid3, name: &filename3, ftype: ftype3, data: Vec<u8>) -> Result<(fileid3, fattr3), nfsstat3> {
        let mut st = self.state.lock().unwrap();
        if !st.nodes.iter().any(|n| n.id == dirid) {
            return Err(nfsstat3::NFS3ERR_NOENT);
        }
        if st.nodes.iter().any(|n| n.parent == dirid && n.name == name.0) {
            return Err(nfsstat3::NFS3ERR_EXIST);
        }
        st.clock += 1;
        let id = st.next_id;
        st.next_id += 1;
        let attr = attr_of(id, ftype, data.len() as u64, st.clock);
        st.nodes.push(Node { id, parent: dirid, name: name.0.clone(), attr, data });
        let time = st.clock;
        let dir = st.nodes.iter_mut().find(|n| n.id == dirid).unwrap();
        dir.attr.mtime.seconds = time;
        Ok((id, attr))
    }
}

impl NFSFileSystem for MemFs {
    fn capabilities(&self) -> VFSCapabilities {
        self.caps
    }

    fn root_dir(&self) -> fileid3 {
        1
    }

    fn lookup(&self, dirid: fileid3, filename: &filename3) -> Result<fileid3, nfsstat3> {
        let mut st = self.state.lock().unwrap();
        st.calls.push(format!("lookup"));
        st.nodes
            .iter()
            .find(|n| n.parent == dirid && n.name == filename.0)
            .map(|n| n.id)
            .ok_or(nfsstat3::NFS3ERR_NOENT)
    }

    fn getattr(&self, id: fileid3) -> Result<fattr3, nfsstat3> {
        let mut st = self.state.lock().unwrap();
        st.calls.push(format!("getattr"));
        st.nodes.iter().find(|n| n.id == id).map(|n| n.attr).ok_or(nfsstat3::NFS3ERR_NOENT)
    }

    fn setattr(&self, id: fileid3, setattr: sattr3) -> Result<fattr3, nfsstat3> {
        let mut st = self.state.lock().unwrap();
        st.calls.push(format!("setattr"));
        st.clock += 1;
        let time = st.clock;
        let node = st.nodes.iter_mut().find(|n| n.id == id).ok_or(nfsstat3::NFS3ERR_NOENT)?;
        if let set_mode3::mode(m) = setattr.mode {
            node.attr.mode = m;
        }
        if let set_size3::size(s) = setattr.size {
            node.data.resize(s as usize, 0);
            node.attr.size = s;
            node.attr.used = s;
        }
        node.attr.ctime.seconds = time;
        Ok(node.attr)
    }

    fn read(&self, id: fileid3, offset: u64, count: u32) -> Result<(Vec<u8>, bool), nfsstat3> {
        let mut st = self.state.lock().unwrap();
        st.calls.push(format!("read"));
        let node = st.nodes.iter().find(|n| n.id == id).ok_or(nfsstat3::NFS3ERR_NOENT)?;
        Ok(read_range(&node.data, offset, count))
    }

    fn write(&self, id: fileid3, offset: u64, data: &[u8]) -> Result<fattr3, nfsstat3> {
        let mut st = self.state.lock().unwrap();
        st.calls.push(format!("write"));
        st.clock += 1;
        let time = st.clock;
        let node = st.nodes.iter_mut().find(|n| n.id == id).ok_or(nfsstat3::NFS3ERR_NOENT)?;
        let end = offset as usize + data.len();
        if node.data.len() < end {
            node.data.resize(end, 0);
        }
        node.data[offset as usize..end].copy_from_slice(data);
        node.attr.size = node.data.len() as u64;
        node.attr.used = node.attr.size;
        node.attr.mtime.seconds = time;
        Ok(node.attr)
    }

    fn create(&self, dirid: fileid3, filename: &filename3, _attr: sattr3) -> Result<(fileid3, fattr3), nfsstat3> {
        self.state.lock().unwrap().calls.push(format!("create"));
        self.make(dirid, filename, ftype3::NF3REG, Vec::new())
    }

    fn create_exclusive(&self, dirid: fileid3, filename: &filename3) -> Result<fileid3, nfsstat3> {
        self.state.lock().unwrap().calls.push(format!("create_exclusive"));
        self.make(dirid, filename, ftype3::NF3REG, Vec::new()).map(|m| m.0)
    }

    fn mkdir(&self, dirid: fileid3, dirname: &filename3) -> Result<(fileid3, fattr3), nfsstat3> {
        self.state.lock().unwrap().calls.push(format!("mkdir"));
        self.make(dirid, dirname, ftype3::NF3DIR, Vec::new())
    }

    fn remove(&self, dirid: fileid3, filename: &filename3) -> Result<(), nfsstat3> {
        let mut st = self.state.lock().unwrap();
        st.calls.push(format!("remove"));
        let at = st
            .nodes
            .iter()
            .position(|n| n.parent == dirid && n.name == filename.0)
            .ok_or(nfsstat3::NFS3ERR_NOENT)?;
        st.nodes.remove(at);
        Ok(())
    }

    fn rename(&self, from_dirid: fileid3, from_filename: &filename3, to_dirid: fileid3, to_filename: &filename3) -> Result<(), nfsstat3> {
        let mut st = self.state.lock().unwrap();
        st.calls.push(format!("rename"));
        let node = st
            .nodes
            .iter_mut()
            .find(|n| n.parent == from_dirid && n.name == from_filename.0)
            .ok_or(nfsstat3::NFS3ERR_NOENT)?;
        node.parent = to_dirid;
        node.name = to_filename.0.clone();
        Ok(())
    }

    fn readdir(&self, dirid: fileid3, start_after: fileid3, max_entries: usize) -> Result<ReadDirResult, nfsstat3> {
        let mut st = self.state.lock().unwrap();
        st.calls.push(format!("readdir {} {}", start_after, max_entries));
        if !st.nodes.iter().any(|n| n.id == dirid) {
            return Err(nfsstat3::NFS3ERR_NOENT);
        }
        let all: Vec<&Node> = st.nodes.iter().filter(|n| n.parent == dirid).collect();
        let from = if start_after == 0 {
            0
        } else {
            match all.iter().position(|n| n.id == start_after) {
                Some(at) => at + 1,
                None => return Err(nfsstat3::NFS3ERR_BAD_COOKIE),
            }
        };
        let mut entries = Vec::new();
        for n in all.iter().skip(from).take(max_entries) {
            entries.push(DirEntry { fileid: n.id, name: nfsstring(n.name.clone()), attr: n.attr });
        }
        let end = from + entries.len() >= all.len();
        Ok(ReadDirResult { entries, end })
    }

    fn symlink(&self, dirid: fileid3, linkname: &filename3, symlink: &nfspath3, _attr: &sattr3) -> Result<(fileid3, fattr3), nfsstat3> {
        self.state.lock().unwrap().calls.push(format!("symlink"));
        self.make(dirid, linkname, ftype3::NF3LNK, symlink.0.clone())
    }

    fn readlink(&self, id: fileid3) -> Result<nfspath3, nfsstat3> {
        let mut st = self.state.lock().unwrap();
        st.calls.push(format!("readlink"));
        st.nodes.iter().find(|n| n.id == id).map(|n| nfsstring(n.data.clone())).ok_or(nfsstat3::NFS3ERR_NOENT)
    }

    fn serverid(&self) -> [u8; 8] {
        generation_serverid(GENERATION)
    }
}

fn context(fs: MemFs) -> RPCContext<MemFs> {
    RPCContext {
        local_port: 11111,
        client_addr: String::from("127.0.0.1:700"),
        auth: auth_unix::default(),
        vfs: Arc::new(fs),
    }
}

fn call_header(xid: u32, rpcvers: u32, prog: u32, vers: u32, procedure: u32) -> Vec<u8> {
    let msg = rpc_msg {
        xid,
        body: rpc_body::CALL(call_body {
            rpcvers,
            prog,
            vers,
            proc: procedure,
            cred: opaque_auth::default(),
            verf: opaque_auth::default(),
        }),
    };
    let mut out = Vec::new();
    msg.serialize(&mut out);
    out
}

fn call(ctx: &mut RPCContext<MemFs>, message: Vec<u8>) -> (Result<Option<bool>, RpcError>, Vec<u8>) {
    let mut input = ByteReader::new(message);
    let mut output = Vec::new();
    let r = handle_rpc(&mut input, &mut output, ctx);
    (r, output)
}

/// Sends a call of NFS version 3 and returns what follows the accepted
/// header of the reply.
fn nfs_call(ctx: &mut RPCContext<MemFs>, xid: u32, procedure: u32, args: &[u8]) -> ByteReader {
    let mut message = call_header(xid, 2, NFS, 3, procedure);
    message.extend_from_slice(args);
    let (r, output) = call(ctx, message);
    assert_eq!(r, Ok(None));
    let mut reader = ByteReader::new(output);
    expect_accepted(&mut reader, xid, accept_body::SUCCESS);
    reader
}

fn expect_accepted(reader: &mut ByteReader, xid: u32, body: accept_body) {
    let mut msg = rpc_msg::default();
    assert!(msg.deserialize(reader).is_ok());
    assert_eq!(msg.xid, xid);
    match msg.body {
        rpc_body::REPLY(reply_body::MSG_ACCEPTED(a)) => {
            assert_eq!(a.verf, opaque_auth { flavor: auth_flavor::AUTH_NULL, body: vec![] });
            assert_eq!(a.reply_data, body);
        }
        _ => panic!("the reply is not an accepted reply"),
    }
}

fn get<T: XDR>(reader: &mut ByteReader, mut value: T) -> T {
    assert!(value.deserialize(reader).is_ok());
    value
}

fn status(reader: &mut ByteReader) -> nfsstat3 {
    get(reader, nfsstat3::NFS3ERR_JUKEBOX)
}

fn at_end(reader: &ByteReader) -> bool {
    reader.pos == reader.data.len()
}

fn handle(id: fileid3) -> nfs_fh3 {
    let mut data = GENERATION.to_le_bytes().to_vec();
    data.extend_from_slice(&id.to_le_bytes());
    nfs_fh3 { data }
}

fn bytes_of<T: XDR>(value: &T) -> Vec<u8> {
    let mut out = Vec::new();
    value.serialize(&mut out);
    out
}

fn dirop(dir: fileid3, name: &str) -> diropargs3 {
    diropargs3 { dir: handle(dir), name: nfsstring(name.as_bytes().to_vec()) }
}

fn no_attributes() -> sattr3 {
    sattr3::default()
}

fn create_args(dir: fileid3, name: &str, mode: createmode3) -> Vec<u8> {
    let mut args = bytes_of(&dirop(dir, name));
    mode.serialize(&mut args);
    match mode {
        createmode3::EXCLUSIVE => args.extend_from_slice(&[0u8; 8]),
        _ => no_attributes().serialize(&mut args),
    }
    args
}

#[test]
fn null_ping_is_24_bytes_and_28_on_the_wire() {
    let mut ctx = context(MemFs::new(VFSCapabilities::ReadWrite));
    let (r, reply) = call(&mut ctx, call_header(1, 2, NFS, 3, 0));
    assert_eq!(r, Ok(None));
    assert_eq!(
        reply,
        vec![0, 0, 0, 1, 0, 0, 0, 1, 0, 0, 0, 0, 0, 0, 0, 0, 0, 0, 0, 0, 0, 0, 0, 0]
    );
    let mut wire = Vec::new();
    write_fragment(&mut wire, &reply);
    assert_eq!(wire.len(), 28);
    assert_eq!(&wire[..4], &[0x80, 0, 0, 24]);
    assert_eq!(&wire[4..], &reply[..]);
    assert!(ctx.vfs.calls().is_empty());
}

#[test]
fn portmap_getport_returns_own_port() {
    let mut ctx = context(MemFs::new(VFSCapabilities::ReadWrite));
    let mut message = call_header(7, 2, PORTMAP, 2, 3);
    mapping { prog: 100003, vers: 3, prot: 6, port: 0 }.serialize(&mut message);
    let (r, reply) = call(&mut ctx, message);
    assert_eq!(r, Ok(None));
    assert_eq!(reply.len(), 28);
    assert_eq!(&reply[24..], &[0, 0, 0x2b, 0x67]);
    let mut reader = ByteReader::new(reply);
    expect_accepted(&mut reader, 7, accept_body::SUCCESS);
    assert_eq!(get(&mut reader, 0u32), 11111);
}

#[test]
fn portmap_other_procedures_and_versions() {
    let mut ctx = context(MemFs::new(VFSCapabilities::ReadWrite));
    let (_, reply) = call(&mut ctx, call_header(8, 2, PORTMAP, 2, 4));
    expect_accepted(&mut ByteReader::new(reply), 8, accept_body::PROC_UNAVAIL);
    let (_, reply) = call(&mut ctx, call_header(9, 2, PORTMAP, 3, 3));
    expect_accepted(
        &mut ByteReader::new(reply),
        9,
        accept_body::PROG_MISMATCH(mismatch_info { low: 2, high: 2 }),
    );
    let (_, reply) = call(&mut ctx, call_header(10, 2, PORTMAP, 2, 0));
    assert_eq!(reply.len(), 24);
    // GETPORT without a whole mapping
    let mut message = call_header(11, 2, PORTMAP, 2, 3);
    message.extend_from_slice(&[0, 0, 0]);
    let (r, reply) = call(&mut ctx, message);
    assert_eq!(r, Ok(None));
    expect_accepted(&mut ByteReader::new(reply), 11, accept_body::GARBAGE_ARGS);
}

#[test]
fn mount_root_gives_root_handle_and_flavors() {
    let mut ctx = context(MemFs::new(VFSCapabilities::ReadWrite));
    let mut message = call_header(3, 2, MOUNT, 3, 1);
    b"/".to_vec().serialize(&mut message);
    let (r, reply) = call(&mut ctx, message);
    assert_eq!(r, Ok(Some(true)));
    let mut reader = ByteReader::new(reply);
    expect_accepted(&mut reader, 3, accept_body::SUCCESS);
    assert_eq!(get(&mut reader, 5u32), 0);
    let res = get(&mut reader, mountres3_ok::default());
    assert!(res.fhandle.len() <= 64);
    assert_eq!(res.fhandle.len(), 16);
    assert_eq!(&res.fhandle[..8], &ctx.vfs.serverid()[..]);
    assert_eq!(&res.fhandle[8..], &ctx.vfs.root_dir().to_le_bytes()[..]);
    assert_eq!(res.auth_flavors, vec![0, 1]);
    assert!(at_end(&reader));
    // a path without components is found without asking for any name
    assert!(ctx.vfs.calls().is_empty());
}

#[test]
fn mount_walks_the_path_and_reports_missing_directories() {
    let fs = MemFs::new(VFSCapabilities::ReadWrite);
    fs.add(1, 5, "a", ftype3::NF3DIR, b"");
    fs.add(5, 6, "b", ftype3::NF3DIR, b"");
    let mut ctx = context(fs);
    let mut message = call_header(4, 2, MOUNT, 3, 1);
    b"//a/b/".to_vec().serialize(&mut message);
    let (r, reply) = call(&mut ctx, message);
    assert_eq!(r, Ok(Some(true)));
    let mut reader = ByteReader::new(reply);
    expect_accepted(&mut reader, 4, accept_body::SUCCESS);
    assert_eq!(get(&mut reader, 5u32), 0);
    let res = get(&mut reader, mountres3_ok::default());
    assert_eq!(res.fhandle, handle(6).data);

    let mut message = call_header(5, 2, MOUNT, 3, 1);
    b"/a/none".to_vec().serialize(&mut message);
    let (r, reply) = call(&mut ctx, message);
    assert_eq!(r, Ok(None));
    let mut reader = ByteReader::new(reply);
    expect_accepted(&mut reader, 5, accept_body::SUCCESS);
    assert_eq!(get(&mut reader, 0u32), 2);
    assert!(at_end(&reader));
}

#[test]
fn unmount_export_and_unavailable_mount_procedures() {
    let mut ctx = context(MemFs::new(VFSCapabilities::ReadWrite));
    let mut message = call_header(1, 2, MOUNT, 3, 3);
    b"/".to_vec().serialize(&mut message);
    let (r, reply) = call(&mut ctx, message);
    assert_eq!(r, Ok(Some(false)));
    assert_eq!(&reply[24..], &[0, 0, 0, 0]);
    let (r, reply) = call(&mut ctx, call_header(2, 2, MOUNT, 3, 4));
    assert_eq!(r, Ok(Some(false)));
    assert_eq!(&reply[24..], &[0, 0, 0, 0]);
    let (r, reply) = call(&mut ctx, call_header(3, 2, MOUNT, 3, 5));
    assert_eq!(r, Ok(None));
    assert_eq!(&reply[24..], &[0, 0, 0, 1, 0, 0, 0, 1, b'/', 0, 0, 0, 0, 0, 0, 0, 0, 0, 0, 0]);
    let (r, reply) = call(&mut ctx, call_header(4, 2, MOUNT, 3, 2));
    assert_eq!(r, Ok(None));
    expect_accepted(&mut ByteReader::new(reply), 4, accept_body::PROC_UNAVAIL);
    let (r, reply) = call(&mut ctx, call_header(5, 2, MOUNT, 1, 1));
    assert_eq!(r, Ok(None));
    expect_accepted(
        &mut ByteReader::new(reply),
        5,
        accept_body::PROG_MISMATCH(mismatch_info { low: 3, high: 3 }),
    );
    let (r, reply) = call(&mut ctx, call_header(6, 2, MOUNT, 3, 0));
    assert_eq!(r, Ok(None));
    assert_eq!(reply.len(), 24);
}

#[test]
fn lookup_negative_reports_noent_and_root_attributes() {
    let mut ctx = context(MemFs::new(VFSCapabilities::ReadWrite));
    let mut r = nfs_call(&mut ctx, 9, 3, &bytes_of(&dirop(1, "does-not-exist")));
    assert_eq!(status(&mut r), nfsstat3::NFS3ERR_NOENT);
    let dir = get(&mut r, post_op_attr::Void);
    assert_eq!(dir, post_op_attr::attributes(attr_of(1, ftype3::NF3DIR, 0, 100)));
    assert!(at_end(&r));
}

#[test]
fn lookup_positive_reports_handle_and_both_attributes() {
    let fs = MemFs::new(VFSCapabilities::ReadWrite);
    fs.add(1, 12, "here", ftype3::NF3REG, b"abc");
    let mut ctx = context(fs);
    let mut r = nfs_call(&mut ctx, 9, 3, &bytes_of(&dirop(1, "here")));
    assert_eq!(status(&mut r), nfsstat3::NFS3_OK);
    assert_eq!(get(&mut r, nfs_fh3::default()), handle(12));
    assert_eq!(get(&mut r, post_op_attr::Void), post_op_attr::attributes(attr_of(12, ftype3::NF3REG, 3, 100)));
    assert_eq!(get(&mut r, post_op_attr::Void), post_op_attr::attributes(attr_of(1, ftype3::NF3DIR, 0, 100)));
    assert!(at_end(&r));
}

#[test]
fn write_then_read() {
    let mut ctx = context(MemFs::new(VFSCapabilities::ReadWrite));
    let mut r = nfs_call(&mut ctx, 1, 8, &create_args(1, "a", createmode3::UNCHECKED));
    assert_eq!(status(&mut r), nfsstat3::NFS3_OK);
    let fh = match get(&mut r, post_op_fh3::Void) {
        post_op_fh3::handle(fh) => fh,
        post_op_fh3::Void => panic!("CREATE returned no handle"),
    };
    let attr = get(&mut r, post_op_attr::Void);
    assert!(matches!(attr, post_op_attr::attributes(a) if a.size == 0 && a.ftype == ftype3::NF3REG));
    let wcc = get(&mut r, wcc_data::default());
    assert!(matches!(wcc.before, pre_op_attr::attributes(_)));
    assert!(matches!(wcc.after, post_op_attr::attributes(_)));
    assert!(at_end(&r));

    let write = WRITE3args { file: fh.clone(), offset: 0, count: 5, stable: 2, data: b"hello".to_vec() };
    let mut r = nfs_call(&mut ctx, 2, 7, &bytes_of(&write));
    assert_eq!(status(&mut r), nfsstat3::NFS3_OK);
    let res = get(&mut r, WRITE3resok::default());
    assert!(matches!(res.file_wcc.before, pre_op_attr::attributes(b) if b.size == 0));
    assert!(matches!(res.file_wcc.after, post_op_attr::attributes(a) if a.size == 5));
    assert_eq!(res.count, 5);
    assert_eq!(res.committed, stable_how::FILE_SYNC);
    assert_eq!(res.verf, ctx.vfs.serverid());
    assert!(at_end(&r));

    let read = READ3args { file: fh, offset: 0, count: 10 };
    let mut r = nfs_call(&mut ctx, 3, 6, &bytes_of(&read));
    assert_eq!(status(&mut r), nfsstat3::NFS3_OK);
    let res = get(&mut r, READ3resok::default());
    assert_eq!(res.data, b"hello".to_vec());
    assert_eq!(res.count, 5);
    assert!(res.eof);
    assert!(matches!(res.file_attributes, post_op_attr::attributes(a) if a.size == 5));
    assert!(at_end(&r));
}

#[test]
fn write_reports_size_before_and_after() {
    let fs = MemFs::new(VFSCapabilities::ReadWrite);
    fs.add(1, 9, "f", ftype3::NF3REG, b"0123456789");
    let mut ctx = context(fs);
    let write = WRITE3args { file: handle(9), offset: 8, count: 4, stable: 0, data: b"abcd".to_vec() };
    let mut r = nfs_call(&mut ctx, 2, 7, &bytes_of(&write));
    assert_eq!(status(&mut r), nfsstat3::NFS3_OK);
    let res = get(&mut r, WRITE3resok::default());
    let before = match res.file_wcc.before {
        pre_op_attr::attributes(b) => b,
        pre_op_attr::Void => panic!("no attributes from before"),
    };
    let after = match res.file_wcc.after {
        post_op_attr::attributes(a) => a,
        post_op_attr::Void => panic!("no attributes from after"),
    };
    assert_eq!(before.size, 10);
    assert_eq!(after.size, 12);
    assert!(after.mtime.seconds >= before.mtime.seconds);
}

#[test]
fn write_with_wrong_count_is_garbage() {
    let fs = MemFs::new(VFSCapabilities::ReadWrite);
    fs.add(1, 9, "f", ftype3::NF3REG, b"");
    let mut ctx = context(fs);
    let write = WRITE3args { file: handle(9), offset: 0, count: 4, stable: 0, data: b"hello".to_vec() };
    let mut message = call_header(2, 2, NFS, 3, 7);
    write.serialize(&mut message);
    let (r, reply) = call(&mut ctx, message);
    assert_eq!(r, Ok(None));
    let mut reader = ByteReader::new(reply);
    expect_accepted(&mut reader, 2, accept_body::GARBAGE_ARGS);
    assert!(at_end(&reader));
    assert!(ctx.vfs.calls().is_empty());
}

fn readdir_ids(ctx: &mut RPCContext<MemFs>, dir: fileid3, cookie: u64, dircount: u32) -> (Vec<(u64, String, u64)>, bool) {
    let args = READDIR3args { dir: handle(dir), cookie, cookieverf: [0; 8], dircount };
    let mut r = nfs_call(ctx, 6, 16, &bytes_of(&args));
    assert_eq!(status(&mut r), nfsstat3::NFS3_OK);
    let attr = get(&mut r, post_op_attr::Void);
    let verf = get(&mut r, [0u8; 8]);
    match attr {
        post_op_attr::attributes(a) => {
            let mut expect = a.mtime.seconds.to_be_bytes().to_vec();
            expect.extend_from_slice(&a.mtime.nseconds.to_be_bytes());
            assert_eq!(verf.to_vec(), expect);
        }
        post_op_attr::Void => assert_eq!(verf, [0u8; 8]),
    }
    let mut entries = Vec::new();
    while get(&mut r, false) {
        let e = get(&mut r, entry3::default());
        entries.push((e.fileid, String::from_utf8(e.name.0).unwrap(), e.cookie));
    }
    let eof = get(&mut r, false);
    assert!(at_end(&r));
    (entries, eof)
}

fn four_entries() -> MemFs {
    let fs = MemFs::new(VFSCapabilities::ReadWrite);
    fs.add(1, 2, "dir", ftype3::NF3DIR, b"");
    fs.add(2, 10, "ten", ftype3::NF3REG, b"");
    fs.add(2, 20, "twenty", ftype3::NF3REG, b"");
    fs.add(2, 30, "thirty", ftype3::NF3REG, b"");
    fs.add(2, 40, "forty", ftype3::NF3REG, b"");
    fs
}

#[test]
fn readdir_pagination() {
    let mut ctx = context(four_entries());
    let (entries, eof) = readdir_ids(&mut ctx, 2, 0, u32::MAX);
    assert_eq!(
        entries,
        vec![
            (10, String::from("ten"), 10),
            (20, String::from("twenty"), 20),
            (30, String::from("thirty"), 30),
            (40, String::from("forty"), 40)
        ]
    );
    assert!(eof);
    let (entries, eof) = readdir_ids(&mut ctx, 2, 20, u32::MAX);
    assert_eq!(entries, vec![(30, String::from("thirty"), 30), (40, String::from("forty"), 40)]);
    assert!(eof);
}

#[test]
fn readdir_chain_enumerates_directory_once() {
    let mut ctx = context(four_entries());
    // The listing starts after 124 bytes; an entry takes 28 or 32 bytes. With
    // 128 bytes held back, 316 bytes leave room for the first two entries,
    // and then for one entry a call.
    let mut seen = Vec::new();
    let mut cookie = 0;
    let mut calls = 0;
    loop {
        let (entries, eof) = readdir_ids(&mut ctx, 2, cookie, 316);
        assert!(entries.iter().all(|e| cookie == 0 || e.0 > cookie));
        calls += 1;
        for e in &entries {
            seen.push(e.0);
        }
        if eof {
            break;
        }
        assert!(!entries.is_empty());
        cookie = entries.last().unwrap().2;
        assert!(calls < 10);
    }
    assert_eq!(seen, vec![10, 20, 30, 40]);
    assert_eq!(calls, 3);
}

#[test]
fn readdir_budget_drops_entries_and_clears_eof() {
    let mut ctx = context(four_entries());
    // 124 bytes of prefix and one entry of 28 bytes: 152 < dircount - 128.
    let (entries, eof) = readdir_ids(&mut ctx, 2, 0, 128 + 153);
    assert_eq!(entries.len(), 1);
    assert!(!eof);
    let (entries, eof) = readdir_ids(&mut ctx, 2, 0, 128 + 152);
    assert_eq!(entries.len(), 0);
    assert!(!eof);
    // less than the 128 bytes that are held back
    let (entries, eof) = readdir_ids(&mut ctx, 2, 0, 100);
    assert_eq!(entries.len(), 0);
    assert!(!eof);
}

fn readdirplus(ctx: &mut RPCContext<MemFs>, dir: fileid3, cookie: u64, dircount: u32, maxcount: u32) -> (Vec<entryplus3>, bool, usize) {
    let args = READDIRPLUS3args { dir: handle(dir), cookie, cookieverf: [0; 8], dircount, maxcount };
    let mut r = nfs_call(ctx, 6, 17, &bytes_of(&args));
    let len = r.data.len();
    assert_eq!(status(&mut r), nfsstat3::NFS3_OK);
    get(&mut r, post_op_attr::Void);
    get(&mut r, [0u8; 8]);
    let mut entries = Vec::new();
    while get(&mut r, false) {
        entries.push(get(&mut r, entryplus3::default()));
    }
    let eof = get(&mut r, false);
    assert!(at_end(&r));
    (entries, eof, len)
}

#[test]
fn readdirplus_lists_attributes_and_handles() {
    let mut ctx = context(four_entries());
    let (entries, eof, _) = readdirplus(&mut ctx, 2, 0, 1 << 20, 1 << 20);
    assert!(eof);
    assert_eq!(entries.len(), 4);
    assert_eq!(entries[1].fileid, 20);
    assert_eq!(entries[1].cookie, 20);
    assert_eq!(entries[1].name, nfsstring(b"twenty".to_vec()));
    assert_eq!(entries[1].name_attributes, post_op_attr::attributes(attr_of(20, ftype3::NF3REG, 0, 100)));
    assert_eq!(entries[1].name_handle, post_op_fh3::handle(handle(20)));
    // the file system was asked for the entries behind the cookie, one for
    // every sixteen bytes of dircount
    let (entries, eof, _) = readdirplus(&mut ctx, 2, 30, 160, 1 << 20);
    assert!(eof);
    assert_eq!(entries.len(), 1);
    assert_eq!(entries[0].fileid, 40);
    assert!(ctx.vfs.calls().contains(&String::from("readdir 30 10")));
}

#[test]
fn readdirplus_stays_within_maxcount() {
    let mut maxcount = 132;
    while maxcount < 900 {
        let mut ctx = context(four_entries());
        let (entries, eof, len) = readdirplus(&mut ctx, 2, 0, 1 << 20, maxcount);
        assert!(len <= maxcount as usize);
        assert_eq!(eof, entries.len() == 4);
        maxcount += 7;
    }
}

#[test]
fn readdirplus_dircount_limits_informative_bytes() {
    let mut ctx = context(four_entries());
    // "ten" weighs 8 + 4 + 3 + 8 = 23, "twenty" 26: two entries weigh 49.
    let (entries, eof, _) = readdirplus(&mut ctx, 2, 0, 50, 1 << 20);
    assert_eq!(entries.len(), 2);
    assert!(!eof);
    let (entries, _, _) = readdirplus(&mut ctx, 2, 0, 49, 1 << 20);
    assert_eq!(entries.len(), 1);
}

#[test]
fn readdir_of_missing_directory_reports_the_status() {
    let mut ctx = context(MemFs::new(VFSCapabilities::ReadWrite));
    let args = READDIR3args { dir: handle(77), cookie: 0, cookieverf: [0; 8], dircount: 4096 };
    let mut r = nfs_call(&mut ctx, 6, 16, &bytes_of(&args));
    assert_eq!(status(&mut r), nfsstat3::NFS3ERR_NOENT);
    assert_eq!(get(&mut r, post_op_attr::attributes(fattr3::default())), post_op_attr::Void);
    assert!(at_end(&r));
}

#[test]
fn stale_handle_is_reported() {
    let mut ctx = context(MemFs::new(VFSCapabilities::ReadWrite));
    let mut data = (GENERATION ^ 1).to_le_bytes().to_vec();
    data.extend_from_slice(&1u64.to_le_bytes());
    let mut r = nfs_call(&mut ctx, 5, 1, &bytes_of(&nfs_fh3 { data }));
    assert_eq!(status(&mut r), nfsstat3::NFS3ERR_STALE);
    assert!(at_end(&r));
    // a later generation is stale as well
    let mut data = (GENERATION + 1000).to_le_bytes().to_vec();
    data.extend_from_slice(&1u64.to_le_bytes());
    let mut r = nfs_call(&mut ctx, 5, 1, &bytes_of(&nfs_fh3 { data }));
    assert_eq!(status(&mut r), nfsstat3::NFS3ERR_STALE);
    assert!(ctx.vfs.calls().is_empty());
}

#[test]
fn malformed_handle_is_reported() {
    let mut ctx = context(MemFs::new(VFSCapabilities::ReadWrite));
    for len in [0usize, 1, 8, 15, 17, 64] {
        let mut r = nfs_call(&mut ctx, 5, 1, &bytes_of(&nfs_fh3 { data: vec![0; len] }));
        assert_eq!(status(&mut r), nfsstat3::NFS3ERR_BADHANDLE);
        assert!(at_end(&r));
    }
}

#[test]
fn getattr_returns_attributes() {
    let mut ctx = context(MemFs::new(VFSCapabilities::ReadWrite));
    let mut r = nfs_call(&mut ctx, 5, 1, &bytes_of(&handle(1)));
    assert_eq!(status(&mut r), nfsstat3::NFS3_OK);
    assert_eq!(get(&mut r, fattr3::default()), attr_of(1, ftype3::NF3DIR, 0, 100));
    assert!(at_end(&r));
    let mut r = nfs_call(&mut ctx, 5, 1, &bytes_of(&handle(99)));
    assert_eq!(status(&mut r), nfsstat3::NFS3ERR_NOENT);
    assert!(at_end(&r));
}

#[test]
fn read_only_file_system_refuses_create_without_asking() {
    let mut ctx = context(MemFs::new(VFSCapabilities::ReadOnly));
    let mut r = nfs_call(&mut ctx, 1, 8, &create_args(1, "x", createmode3::UNCHECKED));
    assert_eq!(status(&mut r), nfsstat3::NFS3ERR_ROFS);
    assert_eq!(get(&mut r, wcc_data { before: pre_op_attr::Void, after: post_op_attr::attributes(fattr3::default()) }), wcc_data::default());
    assert!(at_end(&r));
    assert!(ctx.vfs.calls().is_empty());
}

#[test]
fn read_only_file_system_refuses_every_change() {
    let mut ctx = context(MemFs::new(VFSCapabilities::ReadOnly));
    for procedure in [2u32, 7, 8, 9, 10, 12, 13, 14] {
        // the refusal comes before the arguments are looked at
        let mut r = nfs_call(&mut ctx, 1, procedure, &[]);
        assert_eq!(status(&mut r), nfsstat3::NFS3ERR_ROFS);
        assert_eq!(get(&mut r, wcc_data { before: pre_op_attr::Void, after: post_op_attr::attributes(fattr3::default()) }), wcc_data::default());
        if procedure == 14 {
            assert_eq!(get(&mut r, wcc_data { before: pre_op_attr::Void, after: post_op_attr::attributes(fattr3::default()) }), wcc_data::default());
        }
        assert!(at_end(&r));
    }
    assert!(ctx.vfs.calls().is_empty());
}

#[test]
fn access_is_masked_on_read_only_file_system() {
    let mut ctx = context(MemFs::new(VFSCapabilities::ReadOnly));
    let args = ACCESS3args { object: handle(1), access: 0x3f };
    let mut r = nfs_call(&mut ctx, 1, 4, &bytes_of(&args));
    assert_eq!(status(&mut r), nfsstat3::NFS3_OK);
    assert!(matches!(get(&mut r, post_op_attr::Void), post_op_attr::attributes(_)));
    assert_eq!(get(&mut r, 0u32), 0x03);
    assert!(at_end(&r));
    let mut ctx = context(MemFs::new(VFSCapabilities::ReadWrite));
    let mut r = nfs_call(&mut ctx, 1, 4, &bytes_of(&args));
    assert_eq!(status(&mut r), nfsstat3::NFS3_OK);
    get(&mut r, post_op_attr::Void);
    assert_eq!(get(&mut r, 0u32), 0x3f);
}

#[test]
fn guarded_create_fails_on_existing_name() {
    let fs = MemFs::new(VFSCapabilities::ReadWrite);
    fs.add(1, 4, "taken", ftype3::NF3REG, b"");
    let mut ctx = context(fs);
    let mut r = nfs_call(&mut ctx, 1, 8, &create_args(1, "taken", createmode3::GUARDED));
    assert_eq!(status(&mut r), nfsstat3::NFS3ERR_EXIST);
    let wcc = get(&mut r, wcc_data::default());
    assert!(matches!(wcc.before, pre_op_attr::attributes(_)));
    assert!(matches!(wcc.after, post_op_attr::attributes(_)));
    assert!(at_end(&r));
    assert!(!ctx.vfs.calls().contains(&String::from("create")));
    let mut r = nfs_call(&mut ctx, 2, 8, &create_args(1, "free", createmode3::GUARDED));
    assert_eq!(status(&mut r), nfsstat3::NFS3_OK);
    assert!(ctx.vfs.calls().contains(&String::from("create")));
}

#[test]
fn exclusive_create_omits_attributes() {
    let mut ctx = context(MemFs::new(VFSCapabilities::ReadWrite));
    let mut r = nfs_call(&mut ctx, 1, 8, &create_args(1, "only", createmode3::EXCLUSIVE));
    assert_eq!(status(&mut r), nfsstat3::NFS3_OK);
    assert!(matches!(get(&mut r, post_op_fh3::Void), post_op_fh3::handle(_)));
    assert_eq!(get(&mut r, post_op_attr::attributes(fattr3::default())), post_op_attr::Void);
    get(&mut r, wcc_data::default());
    assert!(at_end(&r));
    assert!(ctx.vfs.calls().contains(&String::from("create_exclusive")));
    let mut r = nfs_call(&mut ctx, 2, 8, &create_args(1, "only", createmode3::EXCLUSIVE));
    assert_eq!(status(&mut r), nfsstat3::NFS3ERR_EXIST);
}

#[test]
fn create_with_unknown_mode_is_garbage() {
    let mut ctx = context(MemFs::new(VFSCapabilities::ReadWrite));
    let mut message = call_header(1, 2, NFS, 3, 8);
    dirop(1, "x").serialize(&mut message);
    3u32.serialize(&mut message);
    let (r, reply) = call(&mut ctx, message);
    assert_eq!(r, Ok(None));
    expect_accepted(&mut ByteReader::new(reply), 1, accept_body::GARBAGE_ARGS);
}

#[test]
fn mkdir_symlink_readlink_remove_rename() {
    let mut ctx = context(MemFs::new(VFSCapabilities::ReadWrite));
    let mk = MKDIR3args { dirops: dirop(1, "d"), attributes: no_attributes() };
    let mut r = nfs_call(&mut ctx, 1, 9, &bytes_of(&mk));
    assert_eq!(status(&mut r), nfsstat3::NFS3_OK);
    let dir = match get(&mut r, post_op_fh3::Void) {
        post_op_fh3::handle(fh) => fh,
        post_op_fh3::Void => panic!("MKDIR returned no handle"),
    };
    assert!(matches!(get(&mut r, post_op_attr::Void), post_op_attr::attributes(a) if a.ftype == ftype3::NF3DIR));
    get(&mut r, wcc_data::default());
    assert!(at_end(&r));

    let sl = SYMLINK3args {
        dirops: diropargs3 { dir: dir.clone(), name: nfsstring(b"l".to_vec()) },
        symlink: symlinkdata3 { symlink_attributes: no_attributes(), symlink_data: nfsstring(b"../target".to_vec()) },
    };
    let mut r = nfs_call(&mut ctx, 2, 10, &bytes_of(&sl));
    assert_eq!(status(&mut r), nfsstat3::NFS3_OK);
    let link = match get(&mut r, post_op_fh3::Void) {
        post_op_fh3::handle(fh) => fh,
        post_op_fh3::Void => panic!("SYMLINK returned no handle"),
    };

    let mut r = nfs_call(&mut ctx, 3, 5, &bytes_of(&link));
    assert_eq!(status(&mut r), nfsstat3::NFS3_OK);
    assert!(matches!(get(&mut r, post_op_attr::Void), post_op_attr::attributes(a) if a.ftype == ftype3::NF3LNK));
    assert_eq!(get(&mut r, nfsstring::default()), nfsstring(b"../target".to_vec()));
    assert!(at_end(&r));

    // READLINK of a directory
    let mut r = nfs_call(&mut ctx, 4, 5, &bytes_of(&dir));
    assert_eq!(status(&mut r), nfsstat3::NFS3ERR_BADTYPE);
    assert!(matches!(get(&mut r, post_op_attr::Void), post_op_attr::attributes(_)));
    assert!(at_end(&r));
    assert!(!ctx.vfs.calls().contains(&String::from("readlink")) || ctx.vfs.calls().iter().filter(|c| *c == "readlink").count() == 1);

    let rn = RENAME3args {
        from: diropargs3 { dir: dir.clone(), name: nfsstring(b"l".to_vec()) },
        to: dirop(1, "moved"),
    };
    let mut r = nfs_call(&mut ctx, 5, 14, &bytes_of(&rn));
    assert_eq!(status(&mut r), nfsstat3::NFS3_OK);
    let from = get(&mut r, wcc_data::default());
    let to = get(&mut r, wcc_data::default());
    assert!(matches!(from.before, pre_op_attr::attributes(_)));
    assert!(matches!(to.after, post_op_attr::attributes(_)));
    assert!(at_end(&r));

    let mut r = nfs_call(&mut ctx, 6, 12, &bytes_of(&dirop(1, "moved")));
    assert_eq!(status(&mut r), nfsstat3::NFS3_OK);
    get(&mut r, wcc_data::default());
    assert!(at_end(&r));
    let mut r = nfs_call(&mut ctx, 7, 13, &bytes_of(&dirop(1, "moved")));
    assert_eq!(status(&mut r), nfsstat3::NFS3ERR_NOENT);
    let wcc = get(&mut r, wcc_data::default());
    assert!(matches!(wcc.before, pre_op_attr::attributes(_)));
    assert!(at_end(&r));
}

#[test]
fn changes_go_on_without_attributes_from_before() {
    let mut ctx = context(MemFs::new(VFSCapabilities::ReadWrite));
    // the directory 77 does not exist: its attributes cannot be read, and the
    // file system fails the removal itself
    let mut r = nfs_call(&mut ctx, 6, 12, &bytes_of(&dirop(77, "x")));
    assert_eq!(status(&mut r), nfsstat3::NFS3ERR_NOENT);
    assert_eq!(get(&mut r, wcc_data { before: pre_op_attr::Void, after: post_op_attr::attributes(fattr3::default()) }), wcc_data::default());
    assert!(at_end(&r));
    assert_eq!(ctx.vfs.calls(), vec!["getattr", "remove", "getattr"]);
    let mk = MKDIR3args { dirops: dirop(77, "d"), attributes: no_attributes() };
    let mut r = nfs_call(&mut ctx, 1, 9, &bytes_of(&mk));
    assert_eq!(status(&mut r), nfsstat3::NFS3ERR_NOENT);
    assert_eq!(get(&mut r, wcc_data { before: pre_op_attr::Void, after: post_op_attr::attributes(fattr3::default()) }), wcc_data::default());
    assert!(at_end(&r));
    // SETATTR of a file that is gone: the guard cannot be held against anything
    let args = SETATTR3args {
        object: handle(77),
        new_attribute: no_attributes(),
        guard: sattrguard3::obj_ctime(nfstime3 { seconds: 1, nseconds: 0 }),
    };
    let mut r = nfs_call(&mut ctx, 1, 2, &bytes_of(&args));
    assert_eq!(status(&mut r), nfsstat3::NFS3ERR_NOENT);
    assert_eq!(get(&mut r, wcc_data { before: pre_op_attr::Void, after: post_op_attr::attributes(fattr3::default()) }), wcc_data::default());
    assert!(at_end(&r));
    // READLINK of a file that is gone
    let mut r = nfs_call(&mut ctx, 3, 5, &bytes_of(&handle(77)));
    assert_eq!(status(&mut r), nfsstat3::NFS3ERR_NOENT);
    assert_eq!(get(&mut r, post_op_attr::attributes(fattr3::default())), post_op_attr::Void);
    assert!(at_end(&r));
}

#[test]
fn rename_with_bad_handle_carries_both_wcc() {
    let mut ctx = context(MemFs::new(VFSCapabilities::ReadWrite));
    let rn = RENAME3args {
        from: dirop(1, "a"),
        to: diropargs3 { dir: nfs_fh3 { data: vec![1, 2, 3] }, name: nfsstring(b"b".to_vec()) },
    };
    let mut r = nfs_call(&mut ctx, 5, 14, &bytes_of(&rn));
    assert_eq!(status(&mut r), nfsstat3::NFS3ERR_BADHANDLE);
    assert_eq!(get(&mut r, wcc_data { before: pre_op_attr::Void, after: post_op_attr::attributes(fattr3::default()) }), wcc_data::default());
    assert_eq!(get(&mut r, wcc_data { before: pre_op_attr::Void, after: post_op_attr::attributes(fattr3::default()) }), wcc_data::default());
    assert!(at_end(&r));
}

#[test]
fn setattr_guard_mismatch_is_not_sync() {
    let fs = MemFs::new(VFSCapabilities::ReadWrite);
    fs.add(1, 9, "f", ftype3::NF3REG, b"0123456789");
    let mut ctx = context(fs);
    let mut attrs = no_attributes();
    attrs.size = set_size3::size(4);
    let args = SETATTR3args {
        object: handle(9),
        new_attribute: attrs,
        guard: sattrguard3::obj_ctime(nfstime3 { seconds: 1, nseconds: 0 }),
    };
    let mut r = nfs_call(&mut ctx, 1, 2, &bytes_of(&args));
    assert_eq!(status(&mut r), nfsstat3::NFS3ERR_NOT_SYNC);
    assert_eq!(get(&mut r, wcc_data { before: pre_op_attr::Void, after: post_op_attr::attributes(fattr3::default()) }), wcc_data::default());
    assert!(at_end(&r));
    assert!(!ctx.vfs.calls().contains(&String::from("setattr")));

    let args = SETATTR3args {
        object: handle(9),
        new_attribute: attrs,
        guard: sattrguard3::obj_ctime(nfstime3 { seconds: 100, nseconds: 0 }),
    };
    let mut r = nfs_call(&mut ctx, 2, 2, &bytes_of(&args));
    assert_eq!(status(&mut r), nfsstat3::NFS3_OK);
    let wcc = get(&mut r, wcc_data::default());
    assert!(matches!(wcc.before, pre_op_attr::attributes(b) if b.size == 10));
    assert!(matches!(wcc.after, post_op_attr::attributes(a) if a.size == 4));
    assert!(at_end(&r));
}

#[test]
fn setattr_bad_handle_reply_is_complete() {
    let mut ctx = context(MemFs::new(VFSCapabilities::ReadWrite));
    let args = SETATTR3args { object: nfs_fh3 { data: vec![] }, new_attribute: no_attributes(), guard: sattrguard3::Void };
    let mut r = nfs_call(&mut ctx, 1, 2, &bytes_of(&args));
    assert_eq!(status(&mut r), nfsstat3::NFS3ERR_BADHANDLE);
    assert_eq!(get(&mut r, wcc_data { before: pre_op_attr::Void, after: post_op_attr::attributes(fattr3::default()) }), wcc_data::default());
    assert!(at_end(&r));
}

#[test]
fn read_past_end_and_partial() {
    let fs = MemFs::new(VFSCapabilities::ReadWrite);
    fs.add(1, 9, "f", ftype3::NF3REG, b"0123456789");
    let mut ctx = context(fs);
    let mut r = nfs_call(&mut ctx, 1, 6, &bytes_of(&READ3args { file: handle(9), offset: 10, count: 4 }));
    assert_eq!(status(&mut r), nfsstat3::NFS3_OK);
    let res = get(&mut r, READ3resok::default());
    assert_eq!((res.data, res.count, res.eof), (vec![], 0, true));
    let mut r = nfs_call(&mut ctx, 2, 6, &bytes_of(&READ3args { file: handle(9), offset: 2, count: 4 }));
    assert_eq!(status(&mut r), nfsstat3::NFS3_OK);
    let res = get(&mut r, READ3resok::default());
    assert_eq!((res.data, res.count, res.eof), (b"2345".to_vec(), 4, false));
    let mut r = nfs_call(&mut ctx, 3, 6, &bytes_of(&READ3args { file: handle(9), offset: 6, count: 4 }));
    assert_eq!(status(&mut r), nfsstat3::NFS3_OK);
    let res = get(&mut r, READ3resok::default());
    assert_eq!((res.data, res.count, res.eof), (b"6789".to_vec(), 4, true));
    let mut r = nfs_call(&mut ctx, 4, 6, &bytes_of(&READ3args { file: handle(33), offset: 6, count: 4 }));
    assert_eq!(status(&mut r), nfsstat3::NFS3ERR_NOENT);
    assert_eq!(get(&mut r, post_op_attr::attributes(fattr3::default())), post_op_attr::Void);
    assert!(at_end(&r));
}

#[test]
fn fsinfo_fsstat_pathconf_constants() {
    let mut ctx = context(MemFs::new(VFSCapabilities::ReadWrite));
    let mut r = nfs_call(&mut ctx, 1, 19, &bytes_of(&handle(1)));
    assert_eq!(status(&mut r), nfsstat3::NFS3_OK);
    let info = get(&mut r, fsinfo3::default());
    assert!(at_end(&r));
    assert_eq!(
        info,
        fsinfo3 {
            obj_attributes: post_op_attr::attributes(attr_of(1, ftype3::NF3DIR, 0, 100)),
            rtmax: 1048576,
            rtpref: 1048576,
            rtmult: 1048576,
            wtmax: 1048576,
            wtpref: 1048576,
            wtmult: 1048576,
            dtpref: 1048576,
            maxfilesize: 137438953472,
            time_delta: nfstime3 { seconds: 0, nseconds: 1000000 },
            properties: 0x2 | 0x8 | 0x10,
        }
    );
    let mut r = nfs_call(&mut ctx, 2, 18, &bytes_of(&handle(1)));
    assert_eq!(status(&mut r), nfsstat3::NFS3_OK);
    let stat = get(&mut r, FSSTAT3resok::default());
    assert!(at_end(&r));
    assert_eq!(stat.tbytes, 1 << 40);
    assert_eq!(stat.fbytes, 1 << 40);
    assert_eq!(stat.abytes, 1 << 40);
    assert_eq!(stat.tfiles, 1 << 30);
    assert_eq!(stat.ffiles, 1 << 30);
    assert_eq!(stat.afiles, 1 << 30);
    assert_eq!(stat.invarsec, u32::MAX);
    let mut r = nfs_call(&mut ctx, 3, 20, &bytes_of(&handle(1)));
    assert_eq!(status(&mut r), nfsstat3::NFS3_OK);
    let conf = get(&mut r, PATHCONF3resok::default());
    assert!(at_end(&r));
    assert_eq!(conf.linkmax, 0);
    assert_eq!(conf.name_max, 32768);
    assert!(conf.no_trunc);
    assert!(conf.chown_restricted);
    assert!(!conf.case_insensitive);
    assert!(conf.case_preserving);
}

#[test]
fn unsupported_procedures_are_unavailable() {
    let mut ctx = context(MemFs::new(VFSCapabilities::ReadWrite));
    for procedure in [11u32, 15, 21, 22, 1000] {
        let (r, reply) = call(&mut ctx, call_header(1, 2, NFS, 3, procedure));
        assert_eq!(r, Ok(None));
        let mut reader = ByteReader::new(reply);
        expect_accepted(&mut reader, 1, accept_body::PROC_UNAVAIL);
        assert!(at_end(&reader));
    }
}

#[test]
fn dispatch_rejections() {
    let mut ctx = context(MemFs::new(VFSCapabilities::ReadWrite));
    // NFS in another version
    let (r, reply) = call(&mut ctx, call_header(1, 2, NFS, 2, 0));
    assert_eq!(r, Ok(None));
    expect_accepted(
        &mut ByteReader::new(reply),
        1,
        accept_body::PROG_MISMATCH(mismatch_info { low: 3, high: 3 }),
    );
    // programs that are not served
    for prog in [100227u32, 100270, 200024, 1, 100021] {
        let (r, reply) = call(&mut ctx, call_header(2, 2, prog, 1, 0));
        assert_eq!(r, Ok(None));
        expect_accepted(&mut ByteReader::new(reply), 2, accept_body::PROG_UNAVAIL);
    }
    // another version of RPC
    let (r, reply) = call(&mut ctx, call_header(3, 3, NFS, 3, 0));
    assert_eq!(r, Ok(None));
    let msg = get(&mut ByteReader::new(reply), rpc_msg::default());
    assert_eq!(msg.xid, 3);
    assert_eq!(
        msg.body,
        rpc_body::REPLY(reply_body::MSG_DENIED(rejected_reply::RPC_MISMATCH(mismatch_info { low: 0, high: 0 })))
    );
}

#[test]
fn messages_that_cannot_be_answered() {
    let mut ctx = context(MemFs::new(VFSCapabilities::ReadWrite));
    let (r, reply) = call(&mut ctx, vec![0, 0, 1]);
    assert_eq!(r, Err(RpcError::Truncated));
    assert!(reply.is_empty());
    // a reply is not a call
    let mut message = Vec::new();
    nfsserve::rpc::make_success_reply(5).serialize(&mut message);
    let (r, reply) = call(&mut ctx, message);
    assert_eq!(r, Err(RpcError::NotACall));
    assert!(reply.is_empty());
    // a call that stops after its program number
    let mut message = call_header(6, 2, NFS, 3, 0);
    message.truncate(16);
    let (r, reply) = call(&mut ctx, message);
    assert_eq!(r, Ok(None));
    expect_accepted(&mut ByteReader::new(reply), 6, accept_body::GARBAGE_ARGS);
    // a message that is neither call nor reply
    let (r, reply) = call(&mut ctx, vec![0, 0, 0, 7, 0, 0, 0, 2]);
    assert_eq!(r, Ok(None));
    expect_accepted(&mut ByteReader::new(reply), 7, accept_body::GARBAGE_ARGS);
}

#[test]
fn unix_credentials_are_noted() {
    let mut ctx = context(MemFs::new(VFSCapabilities::ReadWrite));
    let who = auth_unix { stamp: 9, machinename: b"box".to_vec(), uid: 1000, gid: 100, gids: vec![4, 24] };
    let msg = rpc_msg {
        xid: 1,
        body: rpc_body::CALL(call_body {
            rpcvers: 2,
            prog: NFS,
            vers: 3,
            proc: 0,
            cred: opaque_auth { flavor: auth_flavor::AUTH_UNIX, body: bytes_of(&who) },
            verf: opaque_auth::default(),
        }),
    };
    let (r, reply) = call(&mut ctx, bytes_of(&msg));
    assert_eq!(r, Ok(None));
    assert_eq!(reply.len(), 24);
    assert_eq!(ctx.auth, who);
    // credentials that do not decode
    let msg = rpc_msg {
        xid: 2,
        body: rpc_body::CALL(call_body {
            rpcvers: 2,
            prog: NFS,
            vers: 3,
            proc: 0,
            cred: opaque_auth { flavor: auth_flavor::AUTH_UNIX, body: vec![0, 0, 0, 9, 0] },
            verf: opaque_auth::default(),
        }),
    };
    let (r, reply) = call(&mut ctx, bytes_of(&msg));
    assert_eq!(r, Ok(None));
    expect_accepted(&mut ByteReader::new(reply), 2, accept_body::GARBAGE_ARGS);
    assert_eq!(ctx.auth, who);
}

#[test]
fn short_arguments_are_garbage() {
    let mut ctx = context(MemFs::new(VFSCapabilities::ReadWrite));
    for procedure in [1u32, 2, 3, 4, 5, 6, 7, 8, 9, 10, 12, 13, 14, 16, 17, 18, 19, 20] {
        let mut message = call_header(procedure, 2, NFS, 3, procedure);
        message.extend_from_slice(&[0, 0, 0, 16, 1, 2, 3]);
        let (r, reply) = call(&mut ctx, message);
        assert_eq!(r, Ok(None));
        let mut reader = ByteReader::new(reply);
        expect_accepted(&mut reader, procedure, accept_body::GARBAGE_ARGS);
        assert!(at_end(&reader));
    }
    assert!(ctx.vfs.calls().is_empty());
}

#[test]
fn replies_are_appended_to_the_output() {
    let mut ctx = context(MemFs::new(VFSCapabilities::ReadWrite));
    let mut input = ByteReader::new(call_header(1, 2, NFS, 3, 0));
    let mut output = vec![9, 9];
    assert_eq!(handle_rpc(&mut input, &mut output, &mut ctx), Ok(None));
    assert_eq!(output.len(), 26);
    assert_eq!(&output[..2], &[9, 9]);
    assert_eq!(input.pos, input.data.len());
}

#[test]
fn setattr_time_requests_decode() {
    // the time requests of SETATTR travel through the arguments unchanged
    let attrs = sattr3 {
        mode: set_mode3::mode(0o644),
        uid: set_uid3::uid(1),
        gid: set_gid3::gid(2),
        size: set_size3::Void,
        atime: set_atime::SET_TO_SERVER_TIME,
        mtime: set_mtime::SET_TO_CLIENT_TIME(nfstime3 { seconds: 5, nseconds: 6 }),
    };
    let args = SETATTR3args { object: handle(1), new_attribute: attrs, guard: sattrguard3::Void };
    let back = get(&mut ByteReader::new(bytes_of(&args)), SETATTR3args::default());
    assert_eq!(back, args);
}

#[test]
fn trailing_bytes_are_left_unread() {
    let mut ctx = context(MemFs::new(VFSCapabilities::ReadWrite));
    let mut message = call_header(21, 2, NFS, 3, 1);
    message.extend_from_slice(&bytes_of(&handle(1)));
    let behind_arguments = message.len();
    message.extend_from_slice(&[0xAA; 8]);
    let mut input = ByteReader::new(message);
    let mut output = Vec::new();
    assert_eq!(handle_rpc(&mut input, &mut output, &mut ctx), Ok(None));
    assert_eq!(input.pos, behind_arguments);
    assert_eq!(input.remaining(), 8);
    let mut r = ByteReader::new(output);
    expect_accepted(&mut r, 21, accept_body::SUCCESS);
    assert_eq!(status(&mut r), nfsstat3::NFS3_OK);
}

#[test]
fn refused_change_reads_no_arguments() {
    let mut ctx = context(MemFs::new(VFSCapabilities::ReadOnly));
    let mut message = call_header(22, 2, NFS, 3, 8);
    let behind_header = message.len();
    message.extend_from_slice(&create_args(1, "a", createmode3::UNCHECKED));
    let mut input = ByteReader::new(message);
    let mut output = Vec::new();
    assert_eq!(handle_rpc(&mut input, &mut output, &mut ctx), Ok(None));
    assert_eq!(input.pos, behind_header);
    let mut r = ByteReader::new(output);
    expect_accepted(&mut r, 22, accept_body::SUCCESS);
    assert_eq!(status(&mut r), nfsstat3::NFS3ERR_ROFS);
}
