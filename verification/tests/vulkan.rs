use ash::vk;
use aurora::commands::{
    ACCESS_MEMORY_READ, ACCESS_MEMORY_WRITE, ACCESS_SHADER_READ, ACCESS_SHADER_WRITE,
    ACCESS_TRANSFER_WRITE, STAGE_ALL_COMMANDS, STAGE_COMPUTE_SHADER, STAGE_DRAW_INDIRECT,
    STAGE_FRAGMENT_SHADER, STAGE_RAY_TRACING_SHADER, STAGE_TRANSFER, WHOLE_SIZE,
};

/// The numbers of the commands are those of the interface that they are recorded through.
#[test]
fn commands_speak_of_the_interface() {
    assert_eq!(STAGE_DRAW_INDIRECT, vk::PipelineStageFlags2::DRAW_INDIRECT.as_raw());
    assert_eq!(STAGE_COMPUTE_SHADER, vk::PipelineStageFlags2::COMPUTE_SHADER.as_raw());
    assert_eq!(STAGE_FRAGMENT_SHADER, vk::PipelineStageFlags2::FRAGMENT_SHADER.as_raw());
    assert_eq!(STAGE_TRANSFER, vk::PipelineStageFlags2::TRANSFER.as_raw());
    assert_eq!(STAGE_ALL_COMMANDS, vk::PipelineStageFlags2::ALL_COMMANDS.as_raw());
    assert_eq!(
        STAGE_RAY_TRACING_SHADER,
        vk::PipelineStageFlags2::RAY_TRACING_SHADER_KHR.as_raw()
    );
    assert_eq!(ACCESS_SHADER_READ, vk::AccessFlags2::SHADER_READ.as_raw());
    assert_eq!(ACCESS_SHADER_WRITE, vk::AccessFlags2::SHADER_WRITE.as_raw());
    assert_eq!(ACCESS_TRANSFER_WRITE, vk::AccessFlags2::TRANSFER_WRITE.as_raw());
    assert_eq!(ACCESS_MEMORY_READ, vk::AccessFlags2::MEMORY_READ.as_raw());
    assert_eq!(ACCESS_MEMORY_WRITE, vk::AccessFlags2::MEMORY_WRITE.as_raw());
    assert_eq!(WHOLE_SIZE, vk::WHOLE_SIZE);
}
