use drm_fourcc::DrmFourcc;
use stardust_xr_wayland_service::client::{Client, Interface};
use stardust_xr_wayland_service::error::WaylandError;
use stardust_xr_wayland_service::event::Event;
use stardust_xr_wayland_service::message::Message;
use stardust_xr_wayland_service::protocols::dmabuf::buffer_backing::{
    planes_disjoint, AlphaMode, DmabufBacking, DmatexImportError, DmatexPlanes, FileId,
};
use stardust_xr_wayland_service::protocols::dmabuf::buffer_params::{
    join, BufferParams, DisjointDmatexPlane, DmatexPlane, ParamsStage, INCOMPLETE, INVALID_FORMAT,
};
use stardust_xr_wayland_service::protocols::dmabuf::fourcc::Fourcc;
use stardust_xr_wayland_service::protocols::dmabuf::{Dmabuf, FormatInfo};
use stardust_xr_wayland_service::protocols::mesa_drm::{MesaDrm, INVALID_MODIFIER, PRIME};
use stardust_xr_wayland_service::protocols::wl::buffer::{Buffer, BufferBacking, BufferSubmit};
use stardust_xr_wayland_service::protocols::wl::shm::{Shm, ARGB8888, XRGB8888};
use stardust_xr_wayland_service::protocols::wl::shm_buffer_backing::{
    plan_uploads, texture_format, Allocation, DmatexUpload, ShmBackingCreationError,
    ShmBufferBacking, B8G8R8A8_SRGB, UPLOADS_AT_ONCE,
};
use stardust_xr_wayland_service::protocols::wl::timeline::Points;
use stardust_xr_wayland_service::presentation::split;
use stardust_xr_wayland_service::signal_on_drop::SignalOnDrop;
use stardust_xr_wayland_service::types::{Fd, ObjectId, Vector2};
use waynest_protocols::server::mesa::drm::wl_drm::Capability;
use waynest_protocols::server::stable::linux_dmabuf_v1::zwp_linux_buffer_params_v1::Error;

fn id(raw: u32) -> ObjectId {
    ObjectId { raw }
}

fn fd(raw: i32) -> Fd {
    Fd { raw }
}

fn plane(raw: i32, offset: u64, row_size: u64) -> DisjointDmatexPlane {
    DisjointDmatexPlane {
        dmabuf_fd: fd(raw),
        plane: DmatexPlane { offset, row_size, array_element_size: 0, depth_slice_size: 0 },
    }
}

fn dmabuf_backing() -> DmabufBacking {
    let format = Fourcc { code: DrmFourcc::Xrgb8888 as u32 };
    let size = Vector2 { x: 2, y: 3 };
    DmabufBacking::new(vec![plane(1, 0, 8)], 7, size, format, &vec![None]).0
}

fn shm_backing(offset: usize, stride: usize, x: u64, y: u64, format: u32) -> ShmBufferBacking {
    let formats: Result<Vec<u32>, ()> = Ok(vec![44, B8G8R8A8_SRGB]);
    ShmBufferBacking::new(offset, stride, Vector2 { x, y }, format, formats).unwrap().0
}

#[test]
fn numbers_are_those_of_the_outside_world() {
    assert_eq!(PRIME, Capability::Prime as u32);
    assert_eq!(INVALID_FORMAT, Error::InvalidFormat as u32);
    assert_eq!(INCOMPLETE, Error::Incomplete as u32);
    assert_eq!(B8G8R8A8_SRGB, vulkano::format::Format::B8G8R8A8_SRGB as u32);
}

#[test]
fn shm_formats_are_told() {
    let mut client = Client::new();
    Shm.advertise_formats(&mut client, id(4));
    assert_eq!(
        client.take_outgoing(),
        vec![
            Event::ShmFormat { shm: id(4), format: 0 },
            Event::ShmFormat { shm: id(4), format: 1 },
        ]
    );
}

#[test]
fn pools_need_memory_and_a_free_id() {
    let mut client = Client::new();
    assert_eq!(
        Shm.create_pool(&mut client, id(5), Err(WaylandError::MemfdError)),
        Err(WaylandError::MemfdError)
    );
    assert!(!client.has_any(id(5)));
    assert_eq!(Shm.create_pool(&mut client, id(5), Ok(())), Ok(()));
    assert!(client.has(id(5), Interface::ShmPool));
    assert_eq!(
        Shm.create_pool(&mut client, id(5), Ok(())),
        Err(WaylandError::FailedToInsertObject)
    );
}

#[test]
fn shm_buffers_need_a_format() {
    let size = Vector2 { x: 2, y: 3 };
    assert_eq!(texture_format::<()>(2), Err(ShmBackingCreationError::UnsupportedFormat));
    assert_eq!(texture_format::<()>(ARGB8888), Ok(50));
    assert_eq!(
        ShmBufferBacking::new(0, 8, size, 2, Err("down")),
        Err(ShmBackingCreationError::UnsupportedFormat)
    );
    assert_eq!(
        ShmBufferBacking::new(0, 8, size, XRGB8888, Err("down")),
        Err(ShmBackingCreationError::DmatexFormatEnumerationFailed("down"))
    );
    assert_eq!(
        ShmBufferBacking::new(0, 8, size, XRGB8888, Ok::<_, ()>(vec![44])),
        Err(ShmBackingCreationError::FormatNotSupportedByDmatex)
    );
    let (backing, allocation) =
        ShmBufferBacking::new(6, 8, size, XRGB8888, Ok::<_, ()>(vec![44, 50])).unwrap();
    assert_eq!(
        allocation,
        Allocation { format: 50, image: Vector2 { x: 2, y: 3 }, staging: 24 }
    );
    assert_eq!(backing.size(), Vector2 { x: 2, y: 3 });
    assert!(!backing.is_transparent());
    assert!(shm_backing(0, 8, 2, 3, ARGB8888).is_transparent());
}

#[test]
fn lines_are_copied_without_gaps() {
    let mut backing = shm_backing(3, 10, 2, 2, ARGB8888);
    let memory: Vec<u8> = (0..21).collect();
    assert!(backing.fits(21));
    assert!(!backing.fits(20));
    let mut staging = vec![0u8; 16];
    assert_eq!(backing.update(&memory, &mut staging), (0, 1));
    assert_eq!(staging, vec![3, 4, 5, 6, 7, 8, 9, 10, 13, 14, 15, 16, 17, 18, 19, 20]);
    assert_eq!(backing.update(&memory, &mut staging), (2, 3));
    assert_eq!(backing.new_timeline_point(), 4);
}

#[test]
fn sizes_are_held_against_the_memory() {
    assert!(shm_backing(9, 4, 7, 0, ARGB8888).fits(0));
    assert!(shm_backing(4, 0, 0, 3, ARGB8888).fits(4));
    assert!(!shm_backing(5, 0, 0, 3, ARGB8888).fits(4));
    assert!(!shm_backing(usize::MAX, usize::MAX, 1, 1 << 40, ARGB8888).fits(usize::MAX));
    assert!(shm_backing(0, 4, 1, 2, ARGB8888).fits(8));
}

#[test]
fn points_start_again_after_the_last() {
    let mut points = Points { next: u64::MAX };
    assert_eq!(points.submission(), (u64::MAX, 0));
    assert_eq!(points.take(), 1);
}

#[test]
fn buffers_are_handed_over_and_again() {
    let mut client = Client::new();
    let backing = BufferBacking::Shm(shm_backing(0, 4, 1, 1, XRGB8888));
    let mut buffer = Buffer::new(&mut client, id(8), backing).unwrap();
    assert_eq!(
        Buffer::new(&mut client, id(8), backing),
        Err(WaylandError::FailedToInsertObject)
    );
    let mut staging = vec![0u8; 4];
    let submit = buffer.update(&vec![1, 2, 3, 4], &mut staging);
    let release = SignalOnDrop { point: 1, consumed: false };
    assert_eq!(submit, BufferSubmit { acquire: 0, release, buffer: id(8) });
    assert_eq!(staging, vec![1, 2, 3, 4]);
    let (again, signalled) = submit.reapply(&mut buffer);
    assert_eq!(signalled, Some(1));
    assert_eq!((again.acquire(), again.release(), again.buffer()), (0, 2, id(8)));
    let next = buffer.update(&vec![1, 2, 3, 4], &mut staging);
    assert_eq!((next.acquire(), next.release()), (3, 4));
    assert!(!buffer.is_transparent());
    assert_eq!(buffer.size(), Vector2 { x: 1, y: 1 });
    assert_eq!(buffer.released(), Message::ReleaseBuffer(id(8)));
    buffer.destroy(&mut client);
    assert!(!client.has_any(id(8)));

    let mut buffer =
        Buffer::new(&mut client, id(9), BufferBacking::Dmabuf(dmabuf_backing())).unwrap();
    let mut submit = buffer.update(&vec![], &mut staging);
    assert_eq!((submit.acquire(), submit.release()), (0, 1));
    assert_eq!(staging, vec![1, 2, 3, 4]);
    assert_eq!(submit.release.consume(), 1);
    let (again, signalled) = submit.reapply(&mut buffer);
    assert_eq!((again.release(), signalled), (2, None));
    assert_eq!(buffer.size(), Vector2 { x: 2, y: 3 });
}

#[test]
fn points_are_signalled_unless_somebody_took_them() {
    let mut signal = SignalOnDrop::new(12);
    assert_eq!(signal.dropped(), Some(12));
    assert_eq!(signal.consume(), 12);
    assert_eq!(signal.dropped(), None);
}

#[test]
fn uploads_go_out_together() {
    assert!(plan_uploads(&mut vec![]).is_none());
    let mut uploads = vec![
        DmatexUpload { image: 1, staging: 10, acquire: 100 },
        DmatexUpload { image: 2, staging: 20, acquire: 200 },
    ];
    let batch = plan_uploads(&mut uploads).unwrap();
    assert!(uploads.is_empty());
    assert_eq!(batch.copies, vec![(10, 1), (20, 2)]);
    assert_eq!(batch.signals, vec![(1, 100), (2, 200)]);
}

#[test]
fn only_so_many_uploads_go_out_at_once() {
    let mut uploads: Vec<DmatexUpload> = (0..20)
        .map(|n| DmatexUpload { image: n, staging: n + 100, acquire: n + 200 })
        .collect();
    let first = plan_uploads(&mut uploads).unwrap();
    assert_eq!(first.copies.len(), UPLOADS_AT_ONCE);
    assert_eq!((first.copies[15], first.signals[15]), ((115, 15), (15, 215)));
    assert_eq!(uploads.len(), 4);
    let second = plan_uploads(&mut uploads).unwrap();
    assert_eq!(second.copies, vec![(116, 16), (117, 17), (118, 18), (119, 19)]);
    assert!(plan_uploads(&mut uploads).is_none());
}

#[test]
fn formats_are_known_by_their_codes() {
    for format in [DrmFourcc::Argb8888, DrmFourcc::Nv12, DrmFourcc::Ayuv, DrmFourcc::Xrgb8888] {
        let code = format as u32;
        assert_eq!(Fourcc::recognized(code), Some(Fourcc { code }));
    }
    assert_eq!(Fourcc::recognized(0), None);
    assert_eq!(Fourcc::recognized(828601953), None);
}

#[test]
fn formats_with_alpha_are_transparent() {
    let alpha = [
        DrmFourcc::Abgr1555,
        DrmFourcc::Abgr16161616f,
        DrmFourcc::Abgr2101010,
        DrmFourcc::Abgr4444,
        DrmFourcc::Abgr8888,
        DrmFourcc::Argb1555,
        DrmFourcc::Argb16161616f,
        DrmFourcc::Argb2101010,
        DrmFourcc::Argb4444,
        DrmFourcc::Argb8888,
        DrmFourcc::Axbxgxrx106106106106,
        DrmFourcc::Ayuv,
        DrmFourcc::Rgba1010102,
        DrmFourcc::Rgba4444,
        DrmFourcc::Rgba5551,
        DrmFourcc::Rgba8888,
    ];
    let transparent = |format: DrmFourcc| {
        let backing = DmabufBacking { format: Fourcc { code: format as u32 }, ..dmabuf_backing() };
        backing.is_transparent()
    };
    for format in alpha {
        assert!(transparent(format));
    }
    for format in [DrmFourcc::Xrgb8888, DrmFourcc::Bgra8888, DrmFourcc::Nv12, DrmFourcc::Rgb565] {
        assert!(!transparent(format));
    }
}

#[test]
fn halves_of_modifiers_go_together() {
    assert_eq!(join(0x1234, 0x5678), 0x1234_0000_5678);
    assert_eq!(split(0x1234_0000_5678), (0x1234, 0x5678));
    assert_eq!(join(u32::MAX, u32::MAX), u64::MAX);
    for value in [0, 1, INVALID_MODIFIER, u64::MAX] {
        let (hi, lo) = split(value);
        assert_eq!(join(hi, lo), value);
    }
}

#[test]
fn planes_are_added_once_and_with_one_modifier() {
    let mut params = BufferParams::new(id(6));
    assert_eq!(params.add(fd(3), 0, 4, 8, 1, 2), Ok(()));
    assert_eq!(params.modifier, Some(0x1_0000_0002));
    assert_eq!(params.add(fd(4), 0, 4, 8, 1, 2), Err(WaylandError::MissingObject(id(6))));
    assert_eq!(
        params.add(fd(4), 1, 4, 8, 1, 3),
        Err(WaylandError::Fatal {
            object_id: id(6),
            code: 4,
            message: "used multiple differing modifiers for one buffer",
        })
    );
    assert_eq!(params.add(fd(4), 1, 4, 8, 1, 2), Ok(()));
}

#[test]
fn planes_come_out_in_order() {
    let mut params = BufferParams::new(id(6));
    for index in [7, 2, 0, 5] {
        params.add(fd(index as i32), index, index * 10, 64, 0, 9).unwrap();
    }
    let code = DrmFourcc::Argb8888 as u32;
    assert!(params.plan(-1, 4, 0).is_none());
    let plan = params.plan(-1, 4, code).unwrap().unwrap();
    assert_eq!(
        plan.planes,
        vec![plane(0, 0, 64), plane(2, 20, 64), plane(5, 50, 64), plane(7, 70, 64)]
    );
    assert_eq!((plan.modifier, plan.format), (9, Fourcc { code }));
    assert_eq!(plan.size, Vector2 { x: u32::MAX, y: 4 });
}

/// Parameters with one plane that was handed over.
fn planned(raw: u32) -> BufferParams {
    let mut params = BufferParams::new(id(raw));
    params.add(fd(1), 0, 0, 8, 0, 7).unwrap();
    assert!(matches!(params.plan(2, 3, DrmFourcc::Xrgb8888 as u32), Some(Ok(_))));
    params
}

#[test]
fn params_become_one_buffer() {
    let code = DrmFourcc::Argb8888 as u32;
    let used = Some(Err(DmatexImportError::AlreadyUsed));
    let mut client = Client::new();
    let mut params = planned(6);
    assert_eq!(params.plan(1, 1, code), used);
    assert!(params.create(&mut client, Ok(dmabuf_backing())).unwrap().is_some());
    assert_eq!(params.stage, ParamsStage::Answered);
    client.take_outgoing();
    // Neither with the old planes nor with new ones.
    assert_eq!(params.plan(1, 1, code), used);
    params.add(fd(2), 0, 0, 8, 0, 7).unwrap();
    assert_eq!(params.plan(1, 1, code), used);
    assert_eq!(params.create(&mut client, Ok(dmabuf_backing())), Ok(None));
    assert_eq!(client.take_outgoing(), vec![Event::BufferParamsFailed { params: id(6) }]);
    assert!(params.create_immed(&mut client, id(8), Ok(dmabuf_backing())).is_err());
    assert!(!client.has_any(id(8)));
}

#[test]
fn destroyed_params_are_gone() {
    let mut client = Client::new();
    client.insert(id(5), Interface::Dmabuf).unwrap();
    client.insert(id(6), Interface::BufferParams).unwrap();
    BufferParams::new(id(6)).destroy(&mut client);
    assert!(!client.has_any(id(6)));
    assert!(client.has_any(id(5)));
    assert_eq!(client.take_outgoing(), vec![]);
}

#[test]
fn buffers_without_planes_have_no_modifier() {
    let mut params = BufferParams::new(id(6));
    assert_eq!(
        params.plan(1, 1, DrmFourcc::Argb8888 as u32),
        Some(Err(DmatexImportError::NoModifier))
    );
}

#[test]
fn files_decide_whether_planes_are_disjoint() {
    let file = |dev, ino| Some(FileId { dev, ino });
    assert!(!planes_disjoint(&vec![]));
    assert!(!planes_disjoint(&vec![None, None]));
    assert!(!planes_disjoint(&vec![file(1, 2), None, file(1, 2)]));
    assert!(planes_disjoint(&vec![file(1, 2), None, file(1, 3)]));
    assert!(planes_disjoint(&vec![file(1, 2), file(2, 2)]));

    let format = Fourcc { code: 875713089 };
    let size = Vector2 { x: 4, y: 2 };
    let planes = vec![plane(3, 0, 16), plane(4, 32, 16)];
    let (backing, import) =
        DmabufBacking::new(planes.clone(), 5, size, format, &vec![file(1, 1), file(1, 1)]);
    assert_eq!((backing.size(), backing.is_transparent()), (Vector2 { x: 4, y: 2 }, true));
    assert_eq!(
        import.planes,
        DmatexPlanes::Simple { dmabuf_fd: fd(3), planes: vec![planes[0].plane, planes[1].plane] }
    );
    assert_eq!(import.watched, vec![fd(3)]);
    assert_eq!((import.drm_fourcc, import.drm_modifier), (875713089, 5));
    assert_eq!((import.is_srgb, import.array_layers), (true, 1));
    assert_eq!(import.alpha_mode, AlphaMode::PremultipliedElectrical);
    let (_, import) =
        DmabufBacking::new(planes.clone(), 5, size, format, &vec![file(1, 1), file(1, 2)]);
    assert_eq!(import.planes, DmatexPlanes::Disjoint { planes });
    assert_eq!(import.watched, vec![fd(3), fd(4)]);
}

#[test]
fn dmabuf_buffers_are_announced_or_refused() {
    let mut client = Client::new();
    client.insert(id(6), Interface::BufferParams).unwrap();
    let imported = Ok(dmabuf_backing());
    let buffer = planned(6).create(&mut client, imported).unwrap().unwrap();
    assert_eq!(buffer.id, id(0xff000000));
    assert_eq!(
        client.take_outgoing(),
        vec![Event::BufferParamsCreated { params: id(6), buffer: id(0xff000000) }]
    );
    let next = planned(6).create(&mut client, imported).unwrap().unwrap();
    assert_eq!(next.id, id(0xff000001));
    client.take_outgoing();
    for refusal in [
        DmatexImportError::InvalidFormat,
        DmatexImportError::NoModifier,
        DmatexImportError::AlreadyUsed,
        DmatexImportError::FailedToEnumerateServerFormats,
        DmatexImportError::DmatexImportError,
        DmatexImportError::TimelineCreationError,
        DmatexImportError::TimelineExportError,
        DmatexImportError::DmabufFdCloneError,
    ] {
        assert_eq!(planned(6).create(&mut client, Err(refusal)), Ok(None));
        assert!(!client.has_any(id(6)));
        assert_eq!(client.take_outgoing(), vec![Event::BufferParamsFailed { params: id(6) }]);
    }

    assert_eq!(planned(6).create_immed(&mut client, id(7), imported).unwrap().id, id(7));
    assert_eq!(
        planned(6).create_immed(&mut client, id(7), imported),
        Err(WaylandError::FailedToInsertObject)
    );
    assert_eq!(
        planned(6).create_immed(&mut client, id(8), Err(DmatexImportError::NoModifier)),
        Err(WaylandError::Fatal {
            object_id: id(8),
            code: 3,
            message: "Failed to import dmabuf",
        })
    );
    assert_eq!(client.take_outgoing(), vec![]);
}

fn infos() -> Vec<FormatInfo> {
    let info = |name: &str, fourccs, modifiers| FormatInfo {
        name: name.to_string(),
        fourccs,
        modifiers,
    };
    vec![
        info("B8G8R8A8_SRGB", vec![1, 2], vec![10, 0x1_0000_0014]),
        info("B8G8R8A8_UNORM", vec![3], vec![30]),
        info("R8_SRGB", vec![4], vec![40]),
        info("SRGB", vec![], vec![50]),
    ]
}

#[test]
fn srgb_formats_are_told_with_modifiers() {
    let mut client = Client::new();
    let dmabuf = Dmabuf::new(&mut client, id(5), 3, &infos());
    assert_eq!(
        dmabuf.formats,
        vec![(1, 10), (1, 0x1_0000_0014), (2, 10), (2, 0x1_0000_0014), (4, 40)]
    );
    let told = |format, modifier_hi, modifier_lo| Event::DmabufModifier {
        dmabuf: id(5),
        format,
        modifier_hi,
        modifier_lo,
    };
    assert_eq!(
        client.take_outgoing(),
        vec![told(1, 0, 10), told(1, 1, 20), told(2, 0, 10), told(2, 1, 20), told(4, 0, 40)]
    );
}

#[test]
fn formats_are_told_as_the_version_wants_it() {
    let mut client = Client::new();
    Dmabuf::new(&mut client, id(5), 2, &infos());
    let formats: Vec<Event> = [1, 1, 2, 2, 4]
        .iter()
        .map(|format| Event::DmabufFormat { dmabuf: id(5), format: *format })
        .collect();
    assert_eq!(client.take_outgoing(), formats);
    Dmabuf::new(&mut client, id(5), 4, &infos());
    assert_eq!(client.take_outgoing(), vec![]);
}

#[test]
fn feedback_depends_on_the_version() {
    let mut client = Client::new();
    let refused = Err(WaylandError::Fatal {
        object_id: id(9),
        code: 71,
        message: "Can't call get_default_feedback on version < 4 of dmabuf",
    });
    for version in [1, 2, 3] {
        let old = Dmabuf { version, formats: vec![] };
        assert_eq!(old.get_default_feedback(&mut client, id(9)), refused);
        assert_eq!(old.get_surface_feedback(&mut client, id(9), id(1)), refused);
        assert!(!client.has_any(id(9)));
    }
    let new = Dmabuf { version: 4, formats: vec![] };
    assert_eq!(new.get_default_feedback(&mut client, id(9)), Ok(()));
    assert!(client.has(id(9), Interface::DmabufFeedback));
    assert_eq!(
        new.get_surface_feedback(&mut client, id(9), id(1)),
        Err(WaylandError::FailedToInsertObject)
    );
    assert_eq!(new.create_params(&mut client, id(10)).unwrap().id, id(10));
    assert!(new.create_params(&mut client, id(10)).is_err());
    new.destroy(&mut client, id(9));
    assert!(!client.has_any(id(9)));
}

#[test]
fn drm_tells_of_the_device_and_its_formats() {
    let mut client = Client::new();
    MesaDrm::new(&mut client, id(5), 2, 0x80e280, vec![7, 8, 7, 9, 8]);
    let mut events = client.take_outgoing();
    assert_eq!(
        events.drain(..2).collect::<Vec<_>>(),
        vec![
            Event::DrmDevice { drm: id(5), path: "/dev/dri/renderD128".to_string() },
            Event::DrmCapabilities { drm: id(5), value: 1 },
        ]
    );
    let mut formats = Vec::new();
    for event in events {
        match event {
            Event::DrmFormat { drm, format } if drm == id(5) => formats.push(format),
            other => panic!("not a format: {:?}", other),
        }
    }
    formats.sort();
    assert_eq!(formats, vec![7, 8, 9]);

    let drm = MesaDrm::announce(&mut client, id(5), 1, 0x100, &vec![4, 3]);
    assert_eq!(
        client.take_outgoing(),
        vec![
            Event::DrmDevice { drm: id(5), path: "/dev/dri/renderD0".to_string() },
            Event::DrmFormat { drm: id(5), format: 4 },
            Event::DrmFormat { drm: id(5), format: 3 },
        ]
    );
    drm.authenticate(&mut client, id(5));
    assert_eq!(client.take_outgoing(), vec![Event::DrmAuthenticated { drm: id(5) }]);
}

#[test]
fn prime_buffers_have_one_plane() {
    let mut client = Client::new();
    let drm = MesaDrm { version: 2 };
    assert!(drm.create_prime_buffer(fd(3), 4, 5, 0, 6, 7).is_none());
    let code = DrmFourcc::Xrgb8888 as u32;
    let plan = drm.create_prime_buffer(fd(3), 4, 5, code, -1, 7).unwrap();
    assert_eq!(plan.planes, vec![plane(3, u32::MAX as u64, 7)]);
    assert_eq!(plan.modifier, 72057594037927935);
    assert_eq!(plan.size, Vector2 { x: 4, y: 5 });
    let buffer = drm.finish_prime_buffer(&mut client, id(8), Ok(dmabuf_backing()));
    assert_eq!(buffer.unwrap().id, id(8));
    assert_eq!(drm.finish_prime_buffer(&mut client, id(8), Ok(dmabuf_backing())), None);
    let refused = Err(DmatexImportError::InvalidFormat);
    assert_eq!(drm.finish_prime_buffer(&mut client, id(9), refused), None);
    assert!(!client.has_any(id(9)));
    assert_eq!(client.take_outgoing(), vec![]);
}
