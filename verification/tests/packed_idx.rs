use onoro::packed_idx::{IdxOffset, PackedIdx};

  #[test]
  fn test_add_x() {
    let pos = PackedIdx::new(3, 7);
    let offset = IdxOffset::by_x(1);
    assert_eq!(pos + offset, PackedIdx::new(4, 7));
  }

  #[test]
  fn test_add_negative_x() {
    let pos = PackedIdx::new(3, 7);
    let offset = IdxOffset::by_x(-1);
    assert_eq!(pos + offset, PackedIdx::new(2, 7));
  }

  #[test]
  fn test_add_y() {
    let pos = PackedIdx::new(3, 7);
    let offset = IdxOffset::by_y(1);
    assert_eq!(pos + offset, PackedIdx::new(3, 8));
  }

  #[test]
  fn test_add_negative_y() {
    let pos = PackedIdx::new(3, 7);
    let offset = IdxOffset::by_y(-1);
    assert_eq!(pos + offset, PackedIdx::new(3, 6));
  }

  #[test]
  fn test_add_two_dim() {
    let pos = PackedIdx::new(3, 7);
    let offset = IdxOffset::new(2, 1);
    assert_eq!(pos + offset, PackedIdx::new(5, 8));

    let pos = PackedIdx::new(3, 7);
    let offset = IdxOffset::new(2, -1);
    assert_eq!(pos + offset, PackedIdx::new(5, 6));

    let pos = PackedIdx::new(3, 7);
    let offset = IdxOffset::new(-2, 1);
    assert_eq!(pos + offset, PackedIdx::new(1, 8));

    let pos = PackedIdx::new(3, 7);
    let offset = IdxOffset::new(-2, -1);
    assert_eq!(pos + offset, PackedIdx::new(1, 6));
  }

  #[test]
  fn packed_idx_test_add_x() {
    let pos = PackedIdx::new(3, 7);
    let offset = IdxOffset::by_x(1);
    assert_eq!(pos + offset, PackedIdx::new(4, 7));
  }

  #[test]
  fn packed_idx_test_add_negative_x() {
    let pos = PackedIdx::new(3, 7);
    let offset = IdxOffset::by_x(-1);
    assert_eq!(pos + offset, PackedIdx::new(2, 7));
  }

  #[test]
  fn packed_idx_test_add_y() {
    let pos = PackedIdx::new(3, 7);
    let offset = IdxOffset::by_y(1);
    assert_eq!(pos + offset, PackedIdx::new(3, 8));
  }

  #[test]
  fn packed_idx_test_add_negative_y() {
    let pos = PackedIdx::new(3, 7);
    let offset = IdxOffset::by_y(-1);
    assert_eq!(pos + offset, PackedIdx::new(3, 6));
  }

  #[test]
  fn packed_idx_test_add_two_dim() {
    let pos = PackedIdx::new(3, 7);
    let offset = IdxOffset::new(2, 1);
    assert_eq!(pos + offset, PackedIdx::new(5, 8));

    let pos = PackedIdx::new(3, 7);
    let offset = IdxOffset::new(2, -1);
    assert_eq!(pos + offset, PackedIdx::new(5, 6));

    let pos = PackedIdx::new(3, 7);
    let offset = IdxOffset::new(-2, 1);
    assert_eq!(pos + offset, PackedIdx::new(1, 8));

    let pos = PackedIdx::new(3, 7);
    let offset = IdxOffset::new(-2, -1);
    assert_eq!(pos + offset, PackedIdx::new(1, 6));
  }
