use pixelflut::pixelflut_gstreamer::partitioned_buffer_meta::BufferPartitionBin;
use pixelflut::pixelflut_gstreamer::pxmultitcpsink::{render_plan, RenderError, RenderPlan};
use pixelflut::pixelflut_gstreamer::rsduplicator::{CopyForwarder, ForwardStep};
use pixelflut::pixelflut_gstreamer::pixelflut_builder::{hex2, itoa_coord, Color, PixelflutBuilder};
use pixelflut::pixelflut_gstreamer::rsimage2pixelflut::{
    calculate_row_skip, frame_layout, partition_via_rows, CapsError,
};
use pixelflut::pixelflut_gstreamer::simplethreadpool::{pool_config, PoolConfig};

#[test]
fn builder_cmd_px_writes_upper_case_rgba() {
    let mut buf = vec![0u8; PixelflutBuilder::required_size(2, 1)];
    let mut b = PixelflutBuilder::with_xy_capacity(&mut buf, 2, 1);
    b.cmd_px(1, 2, Color { r: 0x11, g: 0xab, b: 0x0c, a: 0xff });
    assert_eq!(b.as_slice(), b"PX 1 2 11AB0CFF\r\n");
    assert!(b.check_capacity(1));
    b.cmd_px(65535, 65535, Color { r: 0, g: 0, b: 0, a: 0 });
    assert_eq!(b.as_slice(), b"PX 1 2 11AB0CFF\r\nPX 65535 65535 00000000\r\n");
    assert!(!b.check_capacity(1));
}

#[test]
fn builder_required_size() {
    assert_eq!(PixelflutBuilder::required_size(1920, 1080), 1920 * 1080 * 25);
    assert_eq!(PixelflutBuilder::required_size(0, 5), 0);
}

#[test]
fn builder_itoa_and_hex2() {
    assert_eq!(itoa_coord(0).as_slice(), b"0");
    assert_eq!(itoa_coord(10).as_slice(), b"10");
    assert_eq!(itoa_coord(65535).as_slice(), b"65535");
    for n in 0..=u16::MAX {
        assert_eq!(itoa_coord(n).as_slice(), n.to_string().as_bytes());
    }
    assert_eq!(hex2(0x9f), *b"9F");
}

#[test]
fn row_skip_is_a_multiple_of_ten() {
    assert_eq!(calculate_row_skip(100, 3), 40);
    assert_eq!(calculate_row_skip(1080, 4), 270);
    assert_eq!(calculate_row_skip(1080, 7), 160);
    assert_eq!(calculate_row_skip(10, 10), 10);
}

#[test]
fn partitions_tile_the_rows() {
    assert_eq!(partition_via_rows(100, 3, 300, 100), vec![(0, 40, 0), (40, 80, 100), (80, 100, 200)]);
    assert_eq!(partition_via_rows(10, 4, 40, 10), vec![(0, 10, 0)]);
    let parts = partition_via_rows(1080, 7, 7 * 5000, 5000);
    assert_eq!(parts.len(), 7);
    assert_eq!(parts[6], (960, 1080, 30000));
}

#[test]
fn thread_pool_configuration() {
    // 0 and -1 use the global pool.
    assert!(matches!(pool_config(-1), Some(PoolConfig::UseGlobalPool)));
    assert!(matches!(pool_config(0), Some(PoolConfig::UseGlobalPool)));
    assert!(pool_config(-2).is_none());
    assert!(pool_config(-7).is_none());
    assert!(matches!(pool_config(3), Some(PoolConfig::Threads(3))));
    assert!(matches!(pool_config(5), Some(PoolConfig::Threads(5))));
}

#[test]
fn render_plan_needs_hosts_and_follows_the_bins() {
    assert!(matches!(render_plan(true, None, 10), Err(RenderError::NoHosts)));
    assert!(matches!(render_plan(false, None, 10), Ok(RenderPlan::WholeBuffer)));
    let bins = vec![
        BufferPartitionBin { offset: 0, len: 4 },
        BufferPartitionBin { offset: 100, len: 7 },
    ];
    assert!(matches!(render_plan(true, Some(&bins), 200), Err(RenderError::NoHosts)));
    match render_plan(false, Some(&bins), 200) {
        Ok(RenderPlan::Parts(jobs)) => {
            let jobs: Vec<(usize, usize, usize)> =
                jobs.iter().map(|j| (j.robin_idx, j.start, j.end)).collect();
            assert_eq!(jobs, vec![(0, 0, 4), (1, 100, 107)]);
        }
        _ => panic!("expected one job per bin"),
    }
}

#[test]
fn forwarder_pushes_each_copy_once() {
    for n in [0u32, 1, 3] {
        let mut f = CopyForwarder::new(n);
        let mut pushes = 0;
        while let ForwardStep::Push = f.step() {
            pushes += 1;
        }
        assert_eq!(pushes, n);
        assert!(matches!(f.step(), ForwardStep::Finished));
    }
}

#[test]
fn caps_need_a_supported_format_and_sizes_in_tens() {
    assert!(matches!(frame_layout(false, 640, 480, 2560), Err(CapsError::UnsupportedFormat)));
    assert!(matches!(frame_layout(true, 645, 480, 2580), Err(CapsError::SizeNotMultipleOfTen)));
    assert!(matches!(frame_layout(true, 640, 485, 2560), Err(CapsError::SizeNotMultipleOfTen)));
    match frame_layout(true, 640, 480, 2560) {
        Ok(l) => assert_eq!((l.width, l.height, l.stride), (640, 480, 2560)),
        Err(_) => panic!("640x480 RGBA is accepted"),
    }
}
