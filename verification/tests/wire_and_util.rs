use nfsserve::fs_util::{
    fattr3_differ, file_setattr, metadata_differ, metadata_to_fattr3, mode_unmask, path_setattr,
    setattr_outcome, FileMeta, SetattrPlan, TimeChange,
};
use nfsserve::nfs::{
    fattr3, ftype3, nfs_fh3, nfsstat3, nfsstring, nfstime3, sattr3, set_atime, set_gid3,
    set_mode3, set_mtime, set_size3, set_uid3, specdata3,
};
use nfsserve::rpc::auth_unix;
use nfsserve::rpcwire::{read_fragment, write_fragment, ReadStep, SocketMessageHandler};
use nfsserve::tcp::{
    auto_bind_host, generate_host_ip, is_auto, parse_listen_address, parse_port, BindError,
};
use nfsserve::vfs::{
    generation_serverid, make_fsinfo, make_handle, read_handle, read_range, split_path,
    DirEntry, ReadDirResult, ReadDirSimpleResult,
};
use nfsserve::vfsext::UserContext;
use nfsserve::xdr::ByteReader;
use nfsserve::nfs::post_op_attr;

#[test]
fn record_is_header_and_reply() {
    let mut wire = Vec::new();
    write_fragment(&mut wire, &vec![7; 300]);
    assert_eq!(wire.len(), 304);
    let header = u32::from_be_bytes([wire[0], wire[1], wire[2], wire[3]]);
    assert_eq!(header >> 31, 1);
    assert_eq!(header & 0x7fff_ffff, 300);
    assert!(wire[4..].iter().all(|b| *b == 7));
    let mut empty = vec![1];
    write_fragment(&mut empty, &vec![]);
    assert_eq!(empty, vec![1, 0x80, 0, 0, 0]);
}

#[test]
fn fragment_is_read_back() {
    let mut wire = Vec::new();
    write_fragment(&mut wire, &vec![1, 2, 3]);
    wire.extend_from_slice(&[0, 0, 0, 2, 8, 9, 0xff]);
    let mut reader = ByteReader::new(wire);
    let mut payload = vec![0];
    assert_eq!(read_fragment(&mut reader, &mut payload), Some(true));
    assert_eq!(payload, vec![0, 1, 2, 3]);
    assert_eq!(reader.pos, 7);
    assert_eq!(read_fragment(&mut reader, &mut payload), Some(false));
    assert_eq!(payload, vec![0, 1, 2, 3, 8, 9]);
    assert_eq!(reader.pos, 13);
    // one byte is no header
    assert_eq!(read_fragment(&mut reader, &mut payload), None);
    assert_eq!(reader.pos, 13);
    assert_eq!(payload.len(), 6);
    // a header whose payload is not all there
    let mut reader = ByteReader::new(vec![0x80, 0, 0, 4, 1, 2, 3]);
    assert_eq!(read_fragment(&mut reader, &mut payload), None);
    assert_eq!(reader.pos, 0);
    assert_eq!(payload.len(), 6);
}

#[test]
fn records_are_put_together_from_pieces() {
    let mut handler = SocketMessageHandler::new();
    assert_eq!(handler.read(), ReadStep::Incomplete);
    // a record of two fragments, then a record of one, cut at odd places
    let mut stream = vec![0, 0, 0, 2, b'a', b'b', 0x80, 0, 0, 1, b'c'];
    write_fragment(&mut stream, &b"second".to_vec());
    handler.receive(&stream[..3]);
    assert_eq!(handler.read(), ReadStep::Incomplete);
    handler.receive(&stream[3..5]);
    assert_eq!(handler.read(), ReadStep::Incomplete);
    handler.receive(&stream[5..8]);
    assert_eq!(handler.read(), ReadStep::Fragment);
    assert_eq!(handler.read(), ReadStep::Incomplete);
    handler.receive(&stream[8..]);
    assert_eq!(handler.read(), ReadStep::Record(b"abc".to_vec()));
    assert_eq!(handler.read(), ReadStep::Record(b"second".to_vec()));
    assert_eq!(handler.read(), ReadStep::Incomplete);
}

#[test]
fn handles_are_server_then_file_little_endian() {
    let server = generation_serverid(0x0102030405060708);
    assert_eq!(server, [8, 7, 6, 5, 4, 3, 2, 1]);
    let fh = make_handle(&server, 0x1112131415161718);
    assert_eq!(fh.data, vec![8, 7, 6, 5, 4, 3, 2, 1, 0x18, 0x17, 0x16, 0x15, 0x14, 0x13, 0x12, 0x11]);
    assert_eq!(read_handle(&server, &fh), Ok(0x1112131415161718));
    for id in [0u64, 1, 255, 256, u64::MAX, 0x8000_0000_0000_0000] {
        assert_eq!(read_handle(&server, &make_handle(&server, id)), Ok(id));
    }
    let other = generation_serverid(0x0102030405060709);
    assert_eq!(read_handle(&other, &fh), Err(nfsstat3::NFS3ERR_STALE));
    let earlier = generation_serverid(0x0102030405060707);
    assert_eq!(read_handle(&earlier, &fh), Err(nfsstat3::NFS3ERR_STALE));
    assert_eq!(read_handle(&server, &nfs_fh3 { data: vec![8, 7, 6, 5, 4, 3, 2, 1] }), Err(nfsstat3::NFS3ERR_BADHANDLE));
    assert_eq!(read_handle(&server, &nfs_fh3 { data: vec![0; 17] }), Err(nfsstat3::NFS3ERR_BADHANDLE));
    assert_eq!(read_handle(&server, &nfs_fh3 { data: vec![] }), Err(nfsstat3::NFS3ERR_BADHANDLE));
}

fn names(parts: Vec<nfsstring>) -> Vec<String> {
    parts.into_iter().map(|p| String::from_utf8(p.0).unwrap()).collect()
}

#[test]
fn paths_split_at_slashes() {
    assert!(split_path(b"").is_empty());
    assert!(split_path(b"/").is_empty());
    assert!(split_path(b"///").is_empty());
    assert_eq!(names(split_path(b"a")), vec!["a"]);
    assert_eq!(names(split_path(b"/a/bc//d/")), vec!["a", "bc", "d"]);
    assert_eq!(names(split_path(b"x/y")), vec!["x", "y"]);
}

#[test]
fn read_range_follows_read_semantics() {
    let data = b"0123456789";
    assert_eq!(read_range(data, 0, 4), (b"0123".to_vec(), false));
    assert_eq!(read_range(data, 6, 4), (b"6789".to_vec(), true));
    assert_eq!(read_range(data, 6, 100), (b"6789".to_vec(), true));
    assert_eq!(read_range(data, 10, 4), (vec![], true));
    assert_eq!(read_range(data, 11, 4), (vec![], true));
    assert_eq!(read_range(data, u64::MAX, u32::MAX), (vec![], true));
    assert_eq!(read_range(data, 3, 0), (vec![], false));
    assert_eq!(read_range(b"", 0, 1), (vec![], true));
}

#[test]
fn plain_listing_drops_attributes() {
    let page = ReadDirResult {
        entries: vec![
            DirEntry { fileid: 3, name: nfsstring(b"x".to_vec()), attr: fattr3::default() },
            DirEntry { fileid: 9, name: nfsstring(b"yz".to_vec()), attr: fattr3::default() },
        ],
        end: true,
    };
    let plain = ReadDirSimpleResult::from_readdir_result(&page);
    assert!(plain.end);
    assert_eq!(plain.entries.len(), 2);
    assert_eq!((plain.entries[0].fileid, plain.entries[0].name.clone()), (3, nfsstring(b"x".to_vec())));
    assert_eq!((plain.entries[1].fileid, plain.entries[1].name.clone()), (9, nfsstring(b"yz".to_vec())));
    let none = ReadDirSimpleResult::from_readdir_result(&ReadDirResult::default());
    assert!(none.entries.is_empty() && !none.end);
}

#[test]
fn fsinfo_is_the_same_for_every_root() {
    let info = make_fsinfo(post_op_attr::Void);
    assert_eq!(info.obj_attributes, post_op_attr::Void);
    assert_eq!(info.rtmax, 1 << 20);
    assert_eq!(info.rtpref, 1 << 20);
    assert_eq!(info.wtpref, 1 << 20);
    assert_eq!(info.maxfilesize, 128 << 30);
    assert_eq!(info.time_delta, nfstime3 { seconds: 0, nseconds: 1_000_000 });
    assert_eq!(info.properties, 0x1a);
}

#[test]
fn host_addresses() {
    assert_eq!(generate_host_ip(1), "127.88.0.1");
    assert_eq!(generate_host_ip(0), "127.88.0.0");
    assert_eq!(generate_host_ip(9), "127.88.0.9");
    assert_eq!(generate_host_ip(10), "127.88.0.10");
    assert_eq!(generate_host_ip(255), "127.88.0.255");
    assert_eq!(generate_host_ip(256), "127.88.1.0");
    assert_eq!(generate_host_ip(0x1234), "127.88.18.52");
    assert_eq!(generate_host_ip(u16::MAX), "127.88.255.255");
    assert_eq!(generate_host_ip(25700), "127.88.100.100");
}

#[test]
fn automatic_addresses_are_tried_32_times() {
    assert_eq!(auto_bind_host(0), None);
    assert_eq!(auto_bind_host(1), Some(String::from("127.88.0.1")));
    assert_eq!(auto_bind_host(32), Some(String::from("127.88.0.32")));
    assert_eq!(auto_bind_host(33), None);
    assert!(is_auto(b"auto"));
    assert!(!is_auto(b"Auto"));
    assert!(!is_auto(b"auto "));
    assert!(!is_auto(b""));
}

#[test]
fn listen_addresses() {
    assert_eq!(parse_listen_address(b"127.0.0.1:12000"), Ok((b"127.0.0.1".to_vec(), 12000)));
    assert_eq!(parse_listen_address(b"auto:0"), Ok((b"auto".to_vec(), 0)));
    assert_eq!(parse_listen_address(b":65535"), Ok((vec![], 65535)));
    assert_eq!(parse_listen_address(b"host:+80"), Ok((b"host".to_vec(), 80)));
    assert_eq!(parse_listen_address(b"127.0.0.1"), Err(BindError::NoPort));
    assert_eq!(parse_listen_address(b""), Err(BindError::NoPort));
    assert_eq!(parse_listen_address(b"h:"), Err(BindError::BadPort));
    assert_eq!(parse_listen_address(b"h:65536"), Err(BindError::BadPort));
    assert_eq!(parse_listen_address(b"h:-1"), Err(BindError::BadPort));
    assert_eq!(parse_listen_address(b"h:1:2"), Err(BindError::BadPort));
    assert_eq!(parse_listen_address(b"h:12a"), Err(BindError::BadPort));
    assert_eq!(parse_port(b"00080"), Some(80));
    assert_eq!(parse_port(b"99999999999999999999"), None);
    assert_eq!(parse_port(b"+"), None);
    assert_eq!(parse_port(b"65535"), Some(65535));
}

fn meta(mode: u32, is_file: bool, is_symlink: bool) -> FileMeta {
    FileMeta {
        ino: 5,
        file_type: mode & 0o170000,
        is_file,
        is_symlink,
        size: 1234,
        mode,
        uid: 10,
        gid: 20,
        atime: 1,
        atime_nsec: 2,
        mtime: 3,
        mtime_nsec: 4,
        ctime: 0x1_0000_0005,
        ctime_nsec: 6,
    }
}

#[test]
fn host_metadata_becomes_attributes() {
    let a = metadata_to_fattr3(77, &meta(0o100444, true, false));
    assert_eq!(
        a,
        fattr3 {
            ftype: ftype3::NF3REG,
            mode: 0o644,
            nlink: 1,
            uid: 10,
            gid: 20,
            size: 1234,
            used: 1234,
            rdev: specdata3::default(),
            fsid: 0,
            fileid: 77,
            atime: nfstime3 { seconds: 1, nseconds: 2 },
            mtime: nfstime3 { seconds: 3, nseconds: 4 },
            ctime: nfstime3 { seconds: 5, nseconds: 6 },
        }
    );
    let l = metadata_to_fattr3(78, &meta(0o120777, false, true));
    assert_eq!((l.ftype, l.nlink, l.mode), (ftype3::NF3LNK, 1, 0o777));
    let d = metadata_to_fattr3(79, &meta(0o040500, false, false));
    assert_eq!((d.ftype, d.nlink, d.mode), (ftype3::NF3DIR, 2, 0o700));
}

#[test]
fn owner_can_always_write() {
    assert_eq!(mode_unmask(0), 0o200);
    assert_eq!(mode_unmask(0o444), 0o644);
    assert_eq!(mode_unmask(0o100777), 0o777);
    assert_eq!(mode_unmask(u32::MAX), 0o777);
}

#[test]
fn differences_that_matter() {
    let a = metadata_to_fattr3(1, &meta(0o100644, true, false));
    let mut b = a;
    assert!(!fattr3_differ(&a, &b));
    b.atime.seconds = 99;
    b.mode = 0;
    assert!(!fattr3_differ(&a, &b));
    b = a;
    b.fileid = 2;
    assert!(fattr3_differ(&a, &b));
    b = a;
    b.mtime.nseconds += 1;
    assert!(fattr3_differ(&a, &b));
    b = a;
    b.size += 1;
    assert!(fattr3_differ(&a, &b));
    b = a;
    b.ftype = ftype3::NF3DIR;
    assert!(fattr3_differ(&a, &b));
    let m = meta(0o100644, true, false);
    let mut n = m;
    assert!(!metadata_differ(&m, &n));
    n.mtime_nsec = 9;
    n.uid = 0;
    assert!(!metadata_differ(&m, &n));
    n.ino = 6;
    assert!(metadata_differ(&m, &n));
    n = m;
    n.mtime = 4;
    assert!(metadata_differ(&m, &n));
    n = m;
    n.size = 0;
    assert!(metadata_differ(&m, &n));
    n = m;
    n.file_type = 0o040000;
    assert!(metadata_differ(&m, &n));
}

#[test]
fn setattr_plans() {
    let request = sattr3 {
        mode: set_mode3::mode(0o444),
        uid: set_uid3::uid(1),
        gid: set_gid3::gid(2),
        size: set_size3::size(100),
        atime: set_atime::SET_TO_SERVER_TIME,
        mtime: set_mtime::SET_TO_CLIENT_TIME(nfstime3 { seconds: 8, nseconds: 9 }),
    };
    let plan = path_setattr(&request);
    assert_eq!(
        plan,
        SetattrPlan {
            atime: TimeChange::ServerTime,
            mtime: TimeChange::ClientTime(nfstime3 { seconds: 8, nseconds: 9 }),
            mode: Some(0o644),
            size: Some(100),
        }
    );
    assert_eq!(
        file_setattr(&request),
        SetattrPlan { atime: TimeChange::Keep, mtime: TimeChange::Keep, mode: Some(0o644), size: Some(100) }
    );
    let nothing = path_setattr(&sattr3::default());
    assert_eq!(nothing, SetattrPlan { atime: TimeChange::Keep, mtime: TimeChange::Keep, mode: None, size: None });
    assert_eq!(setattr_outcome(&plan, true), Ok(()));
    assert_eq!(setattr_outcome(&plan, false), Err(nfsstat3::NFS3ERR_IO));
    assert_eq!(setattr_outcome(&nothing, false), Ok(()));
}

#[test]
fn user_context_from_credentials() {
    let who = auth_unix { stamp: 0, machinename: vec![], uid: 7, gid: 8, gids: vec![1, 2] };
    let user = UserContext::from(&who);
    assert_eq!(format!("{:?}", user), format!("{:?}", UserContext::new(7, 8, vec![1, 2])));
    assert_ne!(format!("{:?}", user), format!("{:?}", UserContext::default()));
}
