use universal_camera::film::{validate_linear_image, FilmError, QualityLevel};
use universal_camera::media::{FrameDescriptor, PixelFormat, TransferFunction, WorkingColorSpace};

fn descriptor(width: u32, height: u32, color_space: WorkingColorSpace) -> FrameDescriptor {
    FrameDescriptor {
        width,
        height,
        pixel_format: PixelFormat::Rgba32Float,
        color_space,
        transfer_function: TransferFunction::Linear,
    }
}

#[test]
fn linear_image_needs_acescg_and_one_pixel_per_position() {
    assert_eq!(validate_linear_image(&descriptor(2, 3, WorkingColorSpace::AcesCg), 6), Ok(()));
    assert_eq!(
        validate_linear_image(&descriptor(2, 3, WorkingColorSpace::AcesCg), 5),
        Err(FilmError::InvalidBufferLength)
    );
    assert_eq!(
        validate_linear_image(&descriptor(2, 3, WorkingColorSpace::AcesCg), 7),
        Err(FilmError::InvalidBufferLength)
    );
    assert_eq!(
        validate_linear_image(&descriptor(2, 3, WorkingColorSpace::LinearRec2020), 5),
        Err(FilmError::UnsupportedWorkingSpace)
    );
    assert_eq!(validate_linear_image(&descriptor(0, 9, WorkingColorSpace::AcesCg), 0), Ok(()));
}

#[test]
fn large_frames_are_counted_without_overflow() {
    let big = descriptor(u32::MAX, 2, WorkingColorSpace::AcesCg);
    assert_eq!(validate_linear_image(&big, usize::MAX), Err(FilmError::InvalidBufferLength));
    assert_ne!(QualityLevel::Preview, QualityLevel::Reference);
}
